//! The interpreter: a small-step machine over a fixed-size byte tape.
//!
//! The meaning of a program is given by the spec-level machine: `step` runs
//! one instruction, `run_n` iterates it. The executable interpreter is
//! verified to follow that machine step for step, up to a caller-chosen
//! step budget, consuming input lines from an in-memory sequence and
//! collecting output bytes in memory.

use vstd::prelude::*;
use crate::encoder::Operation;
use crate::errors::Error;
use crate::input::parse_cell_spec;
use crate::lexer::OpCode;

verus! {

/// How many cells the tape holds.
pub const TAPE_LEN: usize = 65535;

/// The whole interpreter state between two instructions.
#[verifier::ext_equal]
pub ghost struct MachineState {
    /// The byte cells.
    pub tape: Seq<u8>,
    /// The data pointer: which cell is current.
    pub ptr: int,
    /// The instruction pointer: which instruction runs next.
    pub op_ptr: int,
    /// The indices of the loop-starts whose loops are open.
    pub loop_stack: Seq<int>,
    /// How many input lines have been consumed.
    pub in_pos: int,
    /// The bytes emitted so far.
    pub output: Seq<u8>,
}

/// What one machine step leads to.
#[verifier::ext_equal]
pub ghost enum Status {
    /// The machine took the step and is in this state now.
    Running(MachineState),
    /// The instruction pointer had moved past the last instruction.
    Halted(MachineState),
    /// The step failed with this error.
    Failed(Error),
}

/// What consuming input lines leads to.
#[verifier::ext_equal]
pub ghost enum InputOutcome {
    /// All requested lines were read; the state afterwards.
    Read(MachineState),
    /// A line was missing or malformed.
    Fail(Error),
}

/// A cell incremented `n` times, wrapping modulo 256.
pub open spec fn cell_add(v: u8, n: int) -> u8 {
    ((v + n) % 256) as u8
}

/// A cell decremented `n` times, wrapping modulo 256.
pub open spec fn cell_sub(v: u8, n: int) -> u8 {
    ((v - n) % 256) as u8
}

/// `n` copies of one byte.
pub open spec fn repeat_byte(v: u8, n: nat) -> Seq<u8> {
    Seq::new(n, |i: int| v)
}

/// Consume `t` input lines, parsing each into the current cell in turn.
/// Stops at the first missing or malformed line.
pub open spec fn read_inputs(input: Seq<Seq<u8>>, s: MachineState, t: nat) -> InputOutcome
    decreases t,
{
    if t == 0 {
        InputOutcome::Read(s)
    } else if !(0 <= s.in_pos < input.len()) {
        InputOutcome::Fail(Error::InputEof)
    } else {
        match parse_cell_spec(input[s.in_pos]) {
            None => InputOutcome::Fail(Error::InputParseError),
            Some(v) => read_inputs(
                input,
                MachineState { tape: s.tape.update(s.ptr, v), in_pos: s.in_pos + 1, ..s },
                (t - 1) as nat,
            ),
        }
    }
}

/// One machine step: run the instruction under the instruction pointer, or
/// halt if the pointer has moved past the last instruction.
///
/// A loop-start pushes its own index; a loop-end on a non-zero cell jumps
/// back to the pushed index and leaves it on the stack, so that the advance
/// after the jump lands on the first instruction of the loop body; a
/// loop-end on a zero cell pops the index, if any, and falls through. The
/// instruction pointer advances by one after every instruction, a taken
/// jump included.
pub open spec fn step(ops: Seq<Operation>, input: Seq<Seq<u8>>, s: MachineState) -> Status {
    if !(0 <= s.op_ptr < ops.len()) {
        Status::Halted(s)
    } else {
        let op = ops[s.op_ptr];
        let t = op.times as int;
        match op.op_code {
            OpCode::IncPtr => if s.ptr + t < TAPE_LEN {
                Status::Running(MachineState { ptr: s.ptr + t, op_ptr: s.op_ptr + 1, ..s })
            } else {
                Status::Failed(Error::TapeOverflow)
            },
            OpCode::DecPtr => if s.ptr - t >= 0 {
                Status::Running(MachineState { ptr: s.ptr - t, op_ptr: s.op_ptr + 1, ..s })
            } else {
                Status::Failed(Error::TapeUnderflow)
            },
            OpCode::IncVal => Status::Running(
                MachineState {
                    tape: s.tape.update(s.ptr, cell_add(s.tape[s.ptr], t)),
                    op_ptr: s.op_ptr + 1,
                    ..s
                },
            ),
            OpCode::DecVal => Status::Running(
                MachineState {
                    tape: s.tape.update(s.ptr, cell_sub(s.tape[s.ptr], t)),
                    op_ptr: s.op_ptr + 1,
                    ..s
                },
            ),
            OpCode::Out => Status::Running(
                MachineState {
                    output: s.output + repeat_byte(s.tape[s.ptr], op.times as nat),
                    op_ptr: s.op_ptr + 1,
                    ..s
                },
            ),
            OpCode::Inp => match read_inputs(input, s, op.times as nat) {
                InputOutcome::Read(s2) => Status::Running(
                    MachineState { op_ptr: s.op_ptr + 1, ..s2 },
                ),
                InputOutcome::Fail(e) => Status::Failed(e),
            },
            OpCode::LoopS => Status::Running(
                MachineState { loop_stack: s.loop_stack.push(s.op_ptr), op_ptr: s.op_ptr + 1, ..s },
            ),
            OpCode::LoopE => if s.tape[s.ptr] != 0 {
                if s.loop_stack.len() > 0 {
                    Status::Running(MachineState { op_ptr: s.loop_stack.last() + 1, ..s })
                } else {
                    Status::Failed(Error::UnmatchedLoopEnd)
                }
            } else {
                Status::Running(
                    MachineState {
                        loop_stack: if s.loop_stack.len() > 0 {
                            s.loop_stack.drop_last()
                        } else {
                            s.loop_stack
                        },
                        op_ptr: s.op_ptr + 1,
                        ..s
                    },
                )
            },
        }
    }
}

/// The machine after `n` steps from `s`: still running, halted, or failed.
pub open spec fn run_n(ops: Seq<Operation>, input: Seq<Seq<u8>>, s: MachineState, n: nat) -> Status
    decreases n,
{
    if n == 0 {
        Status::Running(s)
    } else {
        match run_n(ops, input, s, (n - 1) as nat) {
            Status::Running(s1) => step(ops, input, s1),
            Status::Halted(s1) => Status::Halted(s1),
            Status::Failed(e) => Status::Failed(e),
        }
    }
}

/// The state a fresh run starts from, on a given tape.
pub open spec fn init_state(tape: Seq<u8>) -> MachineState {
    MachineState {
        tape: tape,
        ptr: 0,
        op_ptr: 0,
        loop_stack: Seq::empty(),
        in_pos: 0,
        output: Seq::empty(),
    }
}

/// A run from `s0` that halts after `n` steps with the given output and
/// final tape.
pub open spec fn halts_with(
    ops: Seq<Operation>,
    input: Seq<Seq<u8>>,
    s0: MachineState,
    n: nat,
    out: Seq<u8>,
    tape: Seq<u8>,
) -> bool {
    match run_n(ops, input, s0, n) {
        Status::Halted(sf) => sf.output == out && sf.tape == tape,
        _ => false,
    }
}

/// An all-zero tape.
pub open spec fn zero_tape_spec() -> Seq<u8> {
    Seq::new(TAPE_LEN as nat, |i: int| 0u8)
}

/// Some number of steps from `s0` halts with this output and final tape.
pub open spec fn can_halt_with(
    ops: Seq<Operation>,
    input: Seq<Seq<u8>>,
    s0: MachineState,
    out: Seq<u8>,
    tape: Seq<u8>,
) -> bool {
    exists|n: nat| halts_with(ops, input, s0, n, out, tape)
}

/// Some number of steps from `s0` halts with this output.
pub open spec fn can_emit(
    ops: Seq<Operation>,
    input: Seq<Seq<u8>>,
    s0: MachineState,
    out: Seq<u8>,
) -> bool {
    exists|n: nat, tape: Seq<u8>| halts_with(ops, input, s0, n, out, tape)
}

/// Some number of steps from `s0` fails with this error.
pub open spec fn can_fail_with(
    ops: Seq<Operation>,
    input: Seq<Seq<u8>>,
    s0: MachineState,
    e: Error,
) -> bool {
    exists|n: nat| run_n(ops, input, s0, n) == Status::Failed(e)
}

/// A run that has halted or failed stays as it is under more steps.
proof fn lemma_outcome_persists(
    ops: Seq<Operation>,
    input: Seq<Seq<u8>>,
    s: MachineState,
    n1: nat,
    n2: nat,
)
    requires
        n1 <= n2,
        !(run_n(ops, input, s, n1) is Running),
    ensures
        run_n(ops, input, s, n2) == run_n(ops, input, s, n1),
    decreases n2 - n1,
{
    if n2 > n1 {
        lemma_outcome_persists(ops, input, s, n1, (n2 - 1) as nat);
    }
}

/// Law: a program's outcome on a given input and starting tape is unique.
/// Whatever two step counts both see the run finished, they see the same
/// halting state or the same error; so the interpreter's result is pinned
/// however many steps its budget allowed.
pub proof fn lemma_outcome_unique(
    ops: Seq<Operation>,
    input: Seq<Seq<u8>>,
    s: MachineState,
    n1: nat,
    n2: nat,
)
    requires
        !(run_n(ops, input, s, n1) is Running),
        !(run_n(ops, input, s, n2) is Running),
    ensures
        run_n(ops, input, s, n1) == run_n(ops, input, s, n2),
{
    if n1 <= n2 {
        lemma_outcome_persists(ops, input, s, n1, n2);
    } else {
        lemma_outcome_persists(ops, input, s, n2, n1);
    }
}

/// What one call of the interpreter reports.
#[derive(Debug)]
pub enum RunOutcome {
    /// The program ran to completion: its output bytes.
    Done(Vec<u8>),
    /// The program failed with this error.
    Fail(Error),
    /// The step budget ran out before the program finished.
    Running,
}

/// The machine state a set of concrete interpreter variables stands for.
spec fn abs_state(
    tape: Seq<u8>,
    ptr: int,
    op_ptr: int,
    stack: Seq<usize>,
    in_pos: int,
    out: Seq<u8>,
) -> MachineState {
    MachineState {
        tape: tape,
        ptr: ptr,
        op_ptr: op_ptr,
        loop_stack: Seq::new(stack.len(), |i: int| stack[i] as int),
        in_pos: in_pos,
        output: out,
    }
}

/// Law: cell increments wrap modulo 256; the result is exactly
/// `(v + times) % 256`, so a cell at 255 incremented once yields 0.
pub fn cell_inc(v: u8, times: u16) -> (r: u8)
    ensures
        r == cell_add(v, times as int),
{
    (((v as u32) + (times as u32)) % 256) as u8
}

/// Law: cell decrements wrap modulo 256; the result is exactly
/// `(v - times) % 256` with a non-negative remainder, so a cell at 0
/// decremented once yields 255.
pub fn cell_dec(v: u8, times: u16) -> (r: u8)
    ensures
        r == cell_sub(v, times as int),
{
    proof {
        vstd::arithmetic::div_mod::lemma_mod_multiples_vanish(
            256,
            v as int - times as int,
            256,
        );
        assert(256 * 256 + (v as int - times as int) == v as int + 65536 - times as int);
    }
    (((v as u32) + 65536 - (times as u32)) % 256) as u8
}

/// Append `times` copies of one byte to the output.
fn emit_cells(output: &mut Vec<u8>, v: u8, times: u16)
    ensures
        final(output)@ == old(output)@ + repeat_byte(v, times as nat),
{
    proof {
        assert(old(output)@ + repeat_byte(v, 0nat) =~= old(output)@);
    }
    let mut k: u16 = 0;
    while k < times
        invariant
            k <= times,
            output@ == old(output)@ + repeat_byte(v, k as nat),
        decreases times - k,
    {
        output.push(v);
        proof {
            assert(old(output)@ + repeat_byte(v, (k + 1) as nat) =~= (old(output)@ + repeat_byte(
                v,
                k as nat,
            )).push(v));
        }
        k = k + 1;
    }
}

/// Read `times` input lines, storing each parsed value into the current
/// cell in turn, exactly as the spec-level `read_inputs` does from the
/// machine state `g` that the concrete variables stand for.
fn read_cells(
    tape: &mut Vec<u8>,
    input: &Vec<Vec<u8>>,
    ptr: usize,
    in_pos: usize,
    times: u16,
    Ghost(g): Ghost<MachineState>,
) -> (r: Result<usize, Error>)
    requires
        g.tape == old(tape)@,
        g.ptr == ptr as int,
        g.in_pos == in_pos as int,
        ptr < old(tape)@.len(),
        in_pos <= input@.len(),
    ensures
        final(tape)@.len() == old(tape)@.len(),
        match r {
            Ok(np) => np <= input@.len() && read_inputs(input.deep_view(), g, times as nat)
                == InputOutcome::Read(
                MachineState { tape: final(tape)@, in_pos: np as int, ..g },
            ),
            Err(e) => read_inputs(input.deep_view(), g, times as nat) == InputOutcome::Fail(e),
        },
{
    let ghost inp = input.deep_view();
    let mut pos = in_pos;
    let mut k: u16 = 0;
    proof {
        assert(MachineState { tape: tape@, in_pos: pos as int, ..g } =~= g);
    }
    while k < times
        invariant
            k <= times,
            ptr < tape@.len(),
            tape@.len() == g.tape.len(),
            g.tape == old(tape)@,
            pos <= input@.len(),
            inp == input.deep_view(),
            g.ptr == ptr as int,
            read_inputs(inp, g, times as nat) == read_inputs(
                inp,
                MachineState { tape: tape@, in_pos: pos as int, ..g },
                (times - k) as nat,
            ),
        decreases times - k,
    {
        let ghost cur = MachineState { tape: tape@, in_pos: pos as int, ..g };
        if pos >= input.len() {
            return Err(Error::InputEof);
        }
        let line: &Vec<u8> = &input[pos];
        proof {
            assert(inp[pos as int] =~= line@);
        }
        match crate::input::parse_cell_value(line) {
            None => {
                return Err(Error::InputParseError);
            },
            Some(v) => {
                tape.set(ptr, v);
                pos = pos + 1;
                proof {
                    assert(MachineState {
                        tape: cur.tape.update(cur.ptr, v),
                        in_pos: cur.in_pos + 1,
                        ..cur
                    } =~= MachineState { tape: tape@, in_pos: pos as int, ..g });
                }
            },
        }
        k = k + 1;
    }
    Ok(pos)
}

/// A fresh all-zero tape of the machine's fixed length.
pub fn zero_tape() -> (r: Vec<u8>)
    ensures
        r@ == zero_tape_spec(),
        r@.len() == TAPE_LEN,
{
    let mut t: Vec<u8> = Vec::new();
    let mut i: usize = 0;
    while i < TAPE_LEN
        invariant
            i <= TAPE_LEN,
            t@.len() == i,
            forall|j: int| 0 <= j < i ==> t@[j] == 0u8,
        decreases TAPE_LEN - i,
    {
        t.push(0);
        i = i + 1;
    }
    proof {
        assert(t@ =~= zero_tape_spec());
    }
    t
}

/// Execute a program on a given starting tape, reading input lines from
/// `input` in order and collecting output bytes, for at most `max_steps`
/// machine steps.
///
/// The result is exactly what the spec-level machine does from
/// `init_state(tape@)`: a halting run's output and final tape, the error of
/// a failing run, or, if the budget ran out first, the report that the
/// machine was still running after `max_steps` steps.
#[verifier::rlimit(60)]
pub fn execute(
    operations: &Vec<Operation>,
    input: &Vec<Vec<u8>>,
    tape: &mut Vec<u8>,
    max_steps: u64,
) -> (r: RunOutcome)
    requires
        old(tape)@.len() == TAPE_LEN,
    ensures
        r matches RunOutcome::Done(out) ==> can_halt_with(
            operations@,
            input.deep_view(),
            init_state(old(tape)@),
            out@,
            final(tape)@,
        ),
        r matches RunOutcome::Fail(e) ==> can_fail_with(
            operations@,
            input.deep_view(),
            init_state(old(tape)@),
            e,
        ),
        r is Running ==> run_n(
            operations@,
            input.deep_view(),
            init_state(old(tape)@),
            max_steps as nat,
        ) is Running,
{
    let ghost ops = operations@;
    let ghost inp = input.deep_view();
    let ghost s0 = init_state(old(tape)@);
    let mut ptr: usize = 0;
    let mut op_ptr: usize = 0;
    let mut stack: Vec<usize> = Vec::new();
    let mut in_pos: usize = 0;
    let mut output: Vec<u8> = Vec::new();
    let mut steps: u64 = 0;
    proof {
        assert(abs_state(tape@, 0, 0, stack@, 0, output@) =~= s0);
    }
    while op_ptr < operations.len() && steps < max_steps
        invariant
            ops == operations@,
            inp == input.deep_view(),
            s0 == init_state(old(tape)@),
            tape@.len() == TAPE_LEN,
            ptr < TAPE_LEN,
            op_ptr <= operations@.len(),
            in_pos <= input@.len(),
            steps <= max_steps,
            forall|i: int| 0 <= i < stack@.len() ==> (#[trigger] stack@[i]) < operations@.len(),
            run_n(ops, inp, s0, steps as nat) == Status::Running(
                abs_state(tape@, ptr as int, op_ptr as int, stack@, in_pos as int, output@),
            ),
        decreases max_steps - steps,
    {
        let ghost cur = abs_state(tape@, ptr as int, op_ptr as int, stack@, in_pos as int, output@);
        let op = operations[op_ptr];
        proof {
            assert(ops[cur.op_ptr] == op);
        }
        match op.op_code {
            OpCode::IncPtr => {
                let t = op.times as usize;
                if t < TAPE_LEN - ptr {
                    ptr = ptr + t;
                } else {
                    proof {
                        assert(step(ops, inp, cur) == Status::Failed(Error::TapeOverflow));
                        assert(run_n(ops, inp, s0, (steps + 1) as nat) == Status::Failed(
                            Error::TapeOverflow,
                        ));
                        assert(can_fail_with(ops, inp, s0, Error::TapeOverflow));
                    }
                    return RunOutcome::Fail(Error::TapeOverflow);
                }
            },
            OpCode::DecPtr => {
                let t = op.times as usize;
                if t <= ptr {
                    ptr = ptr - t;
                } else {
                    proof {
                        assert(step(ops, inp, cur) == Status::Failed(Error::TapeUnderflow));
                        assert(run_n(ops, inp, s0, (steps + 1) as nat) == Status::Failed(
                            Error::TapeUnderflow,
                        ));
                        assert(can_fail_with(ops, inp, s0, Error::TapeUnderflow));
                    }
                    return RunOutcome::Fail(Error::TapeUnderflow);
                }
            },
            OpCode::IncVal => {
                let v = tape[ptr];
                tape.set(ptr, cell_inc(v, op.times));
            },
            OpCode::DecVal => {
                let v = tape[ptr];
                tape.set(ptr, cell_dec(v, op.times));
            },
            OpCode::Out => {
                let v = tape[ptr];
                emit_cells(&mut output, v, op.times);
            },
            OpCode::Inp => {
                match read_cells(tape, input, ptr, in_pos, op.times, Ghost(cur)) {
                    Ok(np) => {
                        in_pos = np;
                    },
                    Err(e) => {
                        proof {
                            assert(step(ops, inp, cur) == Status::Failed(e));
                            assert(run_n(ops, inp, s0, (steps + 1) as nat) == Status::Failed(e));
                            assert(can_fail_with(ops, inp, s0, e));
                        }
                        return RunOutcome::Fail(e);
                    },
                }
            },
            OpCode::LoopS => {
                stack.push(op_ptr);
            },
            OpCode::LoopE => {
                let v = tape[ptr];
                if v != 0 {
                    if stack.len() == 0 {
                        proof {
                            assert(step(ops, inp, cur) == Status::Failed(Error::UnmatchedLoopEnd));
                            assert(run_n(ops, inp, s0, (steps + 1) as nat) == Status::Failed(
                                Error::UnmatchedLoopEnd,
                            ));
                            assert(can_fail_with(ops, inp, s0, Error::UnmatchedLoopEnd));
                        }
                        return RunOutcome::Fail(Error::UnmatchedLoopEnd);
                    }
                    op_ptr = stack[stack.len() - 1];
                } else {
                    if stack.len() > 0 {
                        stack.pop();
                    }
                }
            },
        }
        op_ptr = op_ptr + 1;
        steps = steps + 1;
        proof {
            let a2 = abs_state(tape@, ptr as int, op_ptr as int, stack@, in_pos as int, output@);
            match ops[cur.op_ptr].op_code {
                OpCode::IncPtr => {
                    assert(a2 =~= MachineState { ptr: cur.ptr + ops[cur.op_ptr].times, op_ptr: cur.op_ptr + 1, ..cur });
                },
                OpCode::DecPtr => {
                    assert(a2 =~= MachineState { ptr: cur.ptr - ops[cur.op_ptr].times, op_ptr: cur.op_ptr + 1, ..cur });
                },
                OpCode::IncVal => {
                    assert(a2 =~= MachineState {
                        tape: cur.tape.update(cur.ptr, cell_add(cur.tape[cur.ptr], ops[cur.op_ptr].times as int)),
                        op_ptr: cur.op_ptr + 1,
                        ..cur
                    });
                },
                OpCode::DecVal => {
                    assert(a2 =~= MachineState {
                        tape: cur.tape.update(cur.ptr, cell_sub(cur.tape[cur.ptr], ops[cur.op_ptr].times as int)),
                        op_ptr: cur.op_ptr + 1,
                        ..cur
                    });
                },
                OpCode::Out => {
                    assert(a2 =~= MachineState {
                        output: cur.output + repeat_byte(cur.tape[cur.ptr], ops[cur.op_ptr].times as nat),
                        op_ptr: cur.op_ptr + 1,
                        ..cur
                    });
                },
                OpCode::Inp => {
                    let s2 = match read_inputs(inp, cur, ops[cur.op_ptr].times as nat) {
                        InputOutcome::Read(s2) => s2,
                        InputOutcome::Fail(e) => cur,
                    };
                    assert(a2 =~= MachineState { op_ptr: cur.op_ptr + 1, ..s2 });
                },
                OpCode::LoopS => {
                    assert(a2.loop_stack =~= cur.loop_stack.push(cur.op_ptr));
                    assert(a2 =~= MachineState { loop_stack: cur.loop_stack.push(cur.op_ptr), op_ptr: cur.op_ptr + 1, ..cur });
                },
                OpCode::LoopE => {
                    if cur.tape[cur.ptr] != 0 {
                        assert(a2 =~= MachineState { op_ptr: cur.loop_stack.last() + 1, ..cur });
                    } else {
                        if cur.loop_stack.len() > 0 {
                            assert(a2.loop_stack =~= cur.loop_stack.drop_last());
                        } else {
                            assert(a2.loop_stack =~= cur.loop_stack);
                        }
                        assert(a2 =~= MachineState {
                            loop_stack: if cur.loop_stack.len() > 0 {
                                cur.loop_stack.drop_last()
                            } else {
                                cur.loop_stack
                            },
                            op_ptr: cur.op_ptr + 1,
                            ..cur
                        });
                    }
                },
            }
            assert(step(ops, inp, cur) == Status::Running(a2));
            assert(run_n(ops, inp, s0, steps as nat) == Status::Running(a2));
        }
    }
    if op_ptr == operations.len() {
        let ghost cur = abs_state(tape@, ptr as int, op_ptr as int, stack@, in_pos as int, output@);
        proof {
            assert(step(ops, inp, cur) == Status::Halted(cur));
            assert(run_n(ops, inp, s0, (steps + 1) as nat) == Status::Halted(cur));
            assert(halts_with(ops, inp, s0, (steps + 1) as nat, output@, tape@));
            assert(can_halt_with(operations@, input.deep_view(), init_state(old(tape)@), output@, tape@));
        }
        return RunOutcome::Done(output);
    }
    RunOutcome::Running
}

/// Run a program on a fresh all-zero tape, reading input lines from
/// `input` in order, for at most `max_steps` machine steps.
pub fn interpret(operations: &Vec<Operation>, input: &Vec<Vec<u8>>, max_steps: u64) -> (r:
    RunOutcome)
    ensures
        r matches RunOutcome::Done(out) ==> can_emit(
            operations@,
            input.deep_view(),
            init_state(zero_tape_spec()),
            out@,
        ),
        r matches RunOutcome::Fail(e) ==> can_fail_with(
            operations@,
            input.deep_view(),
            init_state(zero_tape_spec()),
            e,
        ),
        r is Running ==> run_n(
            operations@,
            input.deep_view(),
            init_state(zero_tape_spec()),
            max_steps as nat,
        ) is Running,
{
    let mut tape = zero_tape();
    let r = execute(operations, input, &mut tape, max_steps);
    proof {
        let ops = operations@;
        let inp = input.deep_view();
        let s0 = init_state(zero_tape_spec());
        match &r {
            RunOutcome::Done(out) => {
                let n0 = choose|n: nat| halts_with(ops, inp, s0, n, out@, tape@);
                assert(halts_with(ops, inp, s0, n0, out@, tape@));
                assert(can_emit(ops, inp, s0, out@));
            },
            _ => {},
        }
    }
    r
}

} // verus!
