use vstd::prelude::*;
use crate::brackets::{balanced, is_jump_table, jump_table, paired};
use crate::error::Error;
use crate::opcode::{decode, lemma_commentary_skipped, Opcode};

verus! {

/// `n` cells that hold zero.
pub open spec fn zeros(n: int) -> Seq<u8> {
    Seq::new(n as nat, |i: int| 0u8)
}

/// A cell's value after an increment: one more, and 0 after 255.
pub open spec fn incr(v: u8) -> u8 {
    if v == 255 {
        0
    } else {
        (v + 1) as u8
    }
}

/// A cell's value after a decrement: one less, and 255 after 0.
pub open spec fn decr(v: u8) -> u8 {
    if v == 0 {
        255
    } else {
        (v - 1) as u8
    }
}

/// A cell's value after `n` increments.
pub open spec fn incr_times(v: u8, n: nat) -> u8
    decreases n,
{
    if n == 0 {
        v
    } else {
        incr(incr_times(v, (n - 1) as nat))
    }
}

/// A cell's value after `n` decrements.
pub open spec fn decr_times(v: u8, n: nat) -> u8
    decreases n,
{
    if n == 0 {
        v
    } else {
        decr(decr_times(v, (n - 1) as nat))
    }
}

/// What one step of the machine tells its driver.
#[derive(Debug, Clone, Copy, PartialEq, Eq, Structural)]
pub enum Signal {
    /// The program counter is past the last instruction: nothing was done.
    Halted,
    /// An instruction was executed that writes nothing.
    Stepped,
    /// An output instruction was executed: this byte is to be written.
    Output(u8),
}

/// How a bounded run came to its end.
#[derive(Debug, Clone, Copy, PartialEq, Eq, Structural)]
pub enum Stop {
    /// The program counter ran past the last instruction.
    Halted,
    /// The allowed number of steps was used up before the program halted.
    LimitReached,
}

/// The state of a machine, as contracts see it.
pub struct Machine {
    /// The cells of the tape.
    pub tape: Seq<u8>,
    /// The index of the current cell.
    pub cursor: int,
    /// The index of the next instruction.
    pub pc: int,
    /// The number of zero cells appended when the cursor reaches the tape's end.
    pub block: int,
}

impl Machine {
    /// The cursor is on the tape, and the tape can grow.
    pub open spec fn valid(self) -> bool {
        &&& 0 <= self.cursor < self.tape.len()
        &&& 0 <= self.pc
        &&& 0 < self.block
    }

    /// The value of the current cell.
    pub open spec fn cell(self) -> u8 {
        self.tape[self.cursor]
    }

    /// This machine with `v` in the current cell and the program counter one further.
    pub open spec fn store(self, v: u8) -> Machine {
        Machine { tape: self.tape.update(self.cursor, v), pc: self.pc + 1, ..self }
    }

    /// This machine with the program counter just past `target`.
    pub open spec fn resume_after(self, target: int) -> Machine {
        Machine { pc: target + 1, ..self }
    }

    /// This machine with the cursor one cell to the right. A cursor that
    /// reaches the tape's end has `block` zero cells appended there.
    pub open spec fn shift_right(self) -> Machine {
        Machine {
            tape: if self.cursor + 1 == self.tape.len() {
                self.tape + zeros(self.block)
            } else {
                self.tape
            },
            cursor: self.cursor + 1,
            pc: self.pc + 1,
            ..self
        }
    }

    /// This machine with the cursor one cell to the left, or where it is if
    /// it is on cell 0.
    pub open spec fn shift_left(self) -> Machine {
        Machine {
            cursor: if self.cursor == 0 {
                0
            } else {
                self.cursor - 1
            },
            pc: self.pc + 1,
            ..self
        }
    }

    /// Whether the next instruction of `ops` is an input instruction.
    pub open spec fn wants_input(self, ops: Seq<Opcode>) -> bool {
        self.pc < ops.len() && ops[self.pc] == Opcode::GETCHAR
    }

    /// One step: the state after the instruction at the program counter,
    /// and what the step tells the driver. `input` is the byte that an input
    /// instruction stores; no other instruction looks at it. A halted
    /// machine, and one that lacks its input, stay as they are.
    pub open spec fn react(self, ops: Seq<Opcode>, jt: Map<usize, usize>, input: Option<u8>) -> (
        Machine,
        Result<Signal, Error>,
    ) {
        if self.pc >= ops.len() {
            (self, Ok(Signal::Halted))
        } else {
            match ops[self.pc] {
                Opcode::SHR => (self.shift_right(), Ok(Signal::Stepped)),
                Opcode::SHL => (self.shift_left(), Ok(Signal::Stepped)),
                Opcode::ADD => (self.store(incr(self.cell())), Ok(Signal::Stepped)),
                Opcode::SUB => (self.store(decr(self.cell())), Ok(Signal::Stepped)),
                Opcode::PUTCHAR => (self.resume_after(self.pc), Ok(Signal::Output(self.cell()))),
                Opcode::GETCHAR => match input {
                    Some(b) => (self.store(b), Ok(Signal::Stepped)),
                    None => (self, Err(Error::InputExhausted)),
                },
                Opcode::LB => (
                    self.resume_after(
                        if self.cell() == 0 {
                            jt[self.pc as usize] as int
                        } else {
                            self.pc
                        },
                    ),
                    Ok(Signal::Stepped),
                ),
                Opcode::RB => (
                    self.resume_after(
                        if self.cell() != 0 {
                            jt[self.pc as usize] as int
                        } else {
                            self.pc
                        },
                    ),
                    Ok(Signal::Stepped),
                ),
            }
        }
    }
}

/// The outcome of a run of at most `fuel` steps that starts in state `m`,
/// has consumed the first `consumed` bytes of `input` and has written
/// `output`: the last state, all that was written, and how the run ended.
/// Each input instruction takes the next byte of `input`; a run that
/// reaches one when none is left fails in the state it is in.
pub open spec fn run_from(
    ops: Seq<Opcode>,
    jt: Map<usize, usize>,
    m: Machine,
    input: Seq<u8>,
    consumed: int,
    output: Seq<u8>,
    fuel: nat,
) -> (Machine, Seq<u8>, Result<Stop, Error>)
    decreases fuel,
{
    if m.pc >= ops.len() {
        (m, output, Ok(Stop::Halted))
    } else if fuel == 0 {
        (m, output, Ok(Stop::LimitReached))
    } else if m.wants_input(ops) {
        if consumed < input.len() {
            run_from(
                ops,
                jt,
                m.react(ops, jt, Some(input[consumed])).0,
                input,
                consumed + 1,
                output,
                (fuel - 1) as nat,
            )
        } else {
            (m, output, Err(Error::InputExhausted))
        }
    } else {
        let (next, signal) = m.react(ops, jt, None);
        run_from(
            ops,
            jt,
            next,
            input,
            consumed,
            match signal {
                Ok(Signal::Output(b)) => output.push(b),
                _ => output,
            },
            (fuel - 1) as nat,
        )
    }
}

/// A step of a valid machine under a jump table of the program leaves a
/// valid machine: the cursor stays on the tape and never goes below 0, and
/// the program counter stays within the program or one past its end.
pub proof fn lemma_react_keeps_valid(
    m: Machine,
    ops: Seq<Opcode>,
    jt: Map<usize, usize>,
    input: Option<u8>,
)
    requires
        m.valid(),
        is_jump_table(ops, jt),
        ops.len() <= usize::MAX,
    ensures
        m.react(ops, jt, input).0.valid(),
        m.react(ops, jt, input).0.block == m.block,
        m.react(ops, jt, input).0.tape.len() >= m.tape.len(),
        m.pc <= ops.len() ==> m.react(ops, jt, input).0.pc <= ops.len(),
{
    if m.pc < ops.len() && ops[m.pc].is_bracket() {
        assert(jt.contains_key(m.pc as usize));
        assert(paired(ops, jt, m.pc as usize));
    }
}

/// An increment undoes a decrement and a decrement undoes an increment,
/// however many of them are applied.
pub proof fn lemma_incr_decr_cancel(v: u8, n: nat)
    ensures
        decr_times(incr_times(v, n), n) == v,
        incr_times(decr_times(v, n), n) == v,
    decreases n,
{
    if n > 0 {
        let m = (n - 1) as nat;
        lemma_incr_decr_cancel(v, m);
        lemma_decr_commutes(incr(incr_times(v, m)), m);
        lemma_incr_commutes(decr(decr_times(v, m)), m);
        lemma_incr_commutes(v, m);
        lemma_decr_commutes(v, m);
        lemma_decr_commutes(incr_times(v, m), m);
        lemma_incr_commutes(decr_times(v, m), m);
    }
}

proof fn lemma_incr_commutes(v: u8, n: nat)
    ensures
        incr_times(incr(v), n) == incr(incr_times(v, n)),
        incr_times(decr(v), n) == decr(incr_times(v, n)),
    decreases n,
{
    if n > 0 {
        lemma_incr_commutes(v, (n - 1) as nat);
    }
}

proof fn lemma_decr_commutes(v: u8, n: nat)
    ensures
        decr_times(decr(v), n) == decr(decr_times(v, n)),
        decr_times(incr(v), n) == incr(decr_times(v, n)),
    decreases n,
{
    if n > 0 {
        lemma_decr_commutes(v, (n - 1) as nat);
    }
}

/// `n` increments add `n` modulo 256, and `n` decrements subtract it.
pub proof fn lemma_incr_times_value(v: u8, n: nat)
    ensures
        incr_times(v, n) == (v + n) % 256,
        decr_times(v, n) == (v - n) % 256,
    decreases n,
{
    if n > 0 {
        lemma_incr_times_value(v, (n - 1) as nat);
        lemma_mod_neighbours(v + n - 1);
        lemma_mod_neighbours(v - n);
    }
}

proof fn lemma_mod_neighbours(x: int)
    ensures
        0 <= x % 256 < 256,
        (x + 1) % 256 == if x % 256 == 255 {
            0
        } else {
            x % 256 + 1
        },
        x % 256 == if (x + 1) % 256 == 0 {
            255
        } else {
            (x + 1) % 256 - 1
        },
{
}

/// 256 increments, and 256 decrements, bring a cell back to its value.
pub proof fn lemma_full_turn(v: u8)
    ensures
        incr_times(v, 256) == v,
        decr_times(v, 256) == v,
{
    lemma_incr_times_value(v, 256);
}

/// A move to the right from the last cell of the tape appends `block` zero
/// cells and keeps the cells that were there; the cursor then stands on the
/// first of the new cells, which holds 0.
pub proof fn lemma_shift_right_extends(m: Machine)
    requires
        m.valid(),
        m.cursor + 1 == m.tape.len(),
    ensures
        m.shift_right().tape.len() == m.tape.len() + m.block,
        m.shift_right().tape.take(m.tape.len() as int) == m.tape,
        forall|i: int|
            m.tape.len() <= i < m.tape.len() + m.block ==> #[trigger] m.shift_right().tape[i] == 0,
        m.shift_right().cursor == m.tape.len(),
        m.shift_right().cell() == 0,
{
    assert(m.shift_right().tape.take(m.tape.len() as int) =~= m.tape);
}

/// A move to the left on cell 0 changes neither the cursor nor the tape.
pub proof fn lemma_shift_left_at_origin(m: Machine)
    requires
        m.valid(),
        m.cursor == 0,
    ensures
        m.shift_left().cursor == 0,
        m.shift_left().tape == m.tape,
{
}

/// The outcome of loading `data` and running it for at most `fuel` steps on
/// the tape of `m`, from the first instruction and the first cell. A
/// program whose brackets do not pair up fails before anything is changed.
pub open spec fn run_program(
    m: Machine,
    data: Seq<u8>,
    input: Seq<u8>,
    output: Seq<u8>,
    fuel: nat,
) -> (Machine, Seq<u8>, Result<Stop, Error>) {
    let ops = decode(data);
    if balanced(ops) {
        run_from(ops, jump_table(ops), Machine { cursor: 0, pc: 0, ..m }, input, 0, output, fuel)
    } else {
        (m, output, Err(Error::UnbalancedBracket))
    }
}

/// The step limit only cuts a run short: a run that ends within `fuel`
/// steps, by halting or for want of input, ends in the same way under
/// every greater limit.
pub proof fn lemma_limit_only_cuts_short(
    ops: Seq<Opcode>,
    jt: Map<usize, usize>,
    m: Machine,
    input: Seq<u8>,
    consumed: int,
    output: Seq<u8>,
    fuel: nat,
    more: nat,
)
    requires
        fuel <= more,
        run_from(ops, jt, m, input, consumed, output, fuel).2 != Ok::<Stop, Error>(
            Stop::LimitReached,
        ),
    ensures
        run_from(ops, jt, m, input, consumed, output, more) == run_from(
            ops,
            jt,
            m,
            input,
            consumed,
            output,
            fuel,
        ),
    decreases fuel,
{
    if m.pc < ops.len() && fuel > 0 {
        if m.wants_input(ops) {
            if consumed < input.len() {
                lemma_limit_only_cuts_short(
                    ops,
                    jt,
                    m.react(ops, jt, Some(input[consumed])).0,
                    input,
                    consumed + 1,
                    output,
                    (fuel - 1) as nat,
                    (more - 1) as nat,
                );
            }
        } else {
            let (next, signal) = m.react(ops, jt, None);
            lemma_limit_only_cuts_short(
                ops,
                jt,
                next,
                input,
                consumed,
                match signal {
                    Ok(Signal::Output(b)) => output.push(b),
                    _ => output,
                },
                (fuel - 1) as nat,
                (more - 1) as nat,
            );
        }
    }
}

/// A run only appends to the output: what was written before it stays, in
/// its place.
pub proof fn lemma_output_only_grows(
    ops: Seq<Opcode>,
    jt: Map<usize, usize>,
    m: Machine,
    input: Seq<u8>,
    consumed: int,
    output: Seq<u8>,
    fuel: nat,
)
    ensures
        output.is_prefix_of(run_from(ops, jt, m, input, consumed, output, fuel).1),
    decreases fuel,
{
    if m.pc < ops.len() && fuel > 0 {
        if m.wants_input(ops) {
            if consumed < input.len() {
                lemma_output_only_grows(
                    ops,
                    jt,
                    m.react(ops, jt, Some(input[consumed])).0,
                    input,
                    consumed + 1,
                    output,
                    (fuel - 1) as nat,
                );
            }
        } else {
            let (next, signal) = m.react(ops, jt, None);
            let written = match signal {
                Ok(Signal::Output(b)) => output.push(b),
                _ => output,
            };
            lemma_output_only_grows(ops, jt, next, input, consumed, written, (fuel - 1) as nat);
            assert(output.is_prefix_of(written));
        }
    }
}

/// A run of a program does not depend on the commentary in it.
pub proof fn lemma_run_ignores_commentary(
    m: Machine,
    before: Seq<u8>,
    x: u8,
    after: Seq<u8>,
    input: Seq<u8>,
    output: Seq<u8>,
    fuel: nat,
)
    requires
        !Opcode::recognized(x),
    ensures
        run_program(m, before.push(x) + after, input, output, fuel) == run_program(
            m,
            before + after,
            input,
            output,
            fuel,
        ),
{
    lemma_commentary_skipped(before, x, after);
}

} // verus!
