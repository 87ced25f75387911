use vstd::prelude::*;
use crate::error::Error;
use crate::machine::{lemma_react_keeps_valid, run_from, run_program, zeros, Machine, Signal, Stop};
use crate::opcode::{decode, Code, Opcode};

verus! {

/// The number of cells of a new tape, and the number of cells by which a
/// tape made by [`Interpreter::new`] grows.
pub const INITIAL_CELLS: usize = 10;

/// Appends `n` zero cells to `tape`.
fn append_zeros(tape: &mut Vec<u8>, n: usize)
    ensures
        final(tape)@ == old(tape)@ + zeros(n as int),
{
    let ghost before = tape@;
    let mut k: usize = 0;
    while k < n
        invariant
            k <= n,
            tape@ == before + zeros(k as int),
        decreases n - k,
    {
        tape.push(0);
        k += 1;
        assert(tape@ =~= before + zeros(k as int));
    }
}

/// The machine: a tape of byte cells, a cursor on it, and a program counter.
pub struct Interpreter {
    stack: Vec<u8>,
    sp: usize,
    pc: usize,
    block: usize,
}

impl View for Interpreter {
    type V = Machine;

    closed spec fn view(&self) -> Machine {
        Machine {
            tape: self.stack@,
            cursor: self.sp as int,
            pc: self.pc as int,
            block: self.block as int,
        }
    }
}

impl Interpreter {
    /// The cursor is on the tape, and the tape can grow.
    pub open spec fn wf(&self) -> bool {
        self@.valid()
    }

    /// A machine at the start of a tape of [`INITIAL_CELLS`] zero cells.
    pub fn new() -> (r: Interpreter)
        ensures
            r.wf(),
            r@ == (Machine {
                tape: zeros(INITIAL_CELLS as int),
                cursor: 0,
                pc: 0,
                block: INITIAL_CELLS as int,
            }),
    {
        let mut stack: Vec<u8> = Vec::new();
        append_zeros(&mut stack, INITIAL_CELLS);
        assert(stack@ =~= zeros(INITIAL_CELLS as int));
        Interpreter { stack, sp: 0, pc: 0, block: INITIAL_CELLS }
    }

    /// The cells of the tape.
    pub fn tape(&self) -> (cells: &Vec<u8>)
        ensures
            cells@ == self@.tape,
    {
        &self.stack
    }

    /// The index of the current cell.
    pub fn cursor(&self) -> (at: usize)
        ensures
            at == self@.cursor,
    {
        self.sp
    }

    /// The index of the next instruction.
    pub fn counter(&self) -> (at: usize)
        ensures
            at == self@.pc,
    {
        self.pc
    }

    /// The value of the current cell.
    pub fn cell(&self) -> (v: u8)
        requires
            self.wf(),
        ensures
            v == self@.cell(),
    {
        self.stack[self.sp]
    }

    /// Whether the next step executes an input instruction of `code`, so
    /// that it needs a byte.
    pub fn wants_input(&self, code: &Code) -> (b: bool)
        ensures
            b == self@.wants_input(code.instrs@),
    {
        self.pc < code.instrs.len() && code.instrs[self.pc] == Opcode::GETCHAR
    }

    /// Puts the cursor on cell 0 and the program counter on the first
    /// instruction. The tape stays as it is.
    pub fn rewind(&mut self)
        requires
            old(self).wf(),
        ensures
            final(self).wf(),
            final(self)@ == (Machine { cursor: 0, pc: 0, ..old(self)@ }),
    {
        self.sp = 0;
        self.pc = 0;
    }

    /// Executes the instruction of `code` at the program counter. `input`
    /// is the byte for an input instruction, `None` where the input stream
    /// has ended. A byte to write comes back as [`Signal::Output`]. A step
    /// of a halted machine does nothing; an input instruction without a
    /// byte fails and changes nothing.
    pub fn step(&mut self, code: &Code, input: Option<u8>) -> (r: Result<Signal, Error>)
        requires
            old(self).wf(),
            code.wf(),
        ensures
            final(self).wf(),
            (final(self)@, r) == old(self)@.react(code.instrs@, code.jtable@, input),
    {
        if self.pc >= code.instrs.len() {
            return Ok(Signal::Halted);
        }
        proof {
            lemma_react_keeps_valid(self@, code.instrs@, code.jtable@, input);
        }
        let mut signal = Signal::Stepped;
        match code.instrs[self.pc] {
            Opcode::SHR => {
                assert(self.sp < self.stack.len());
                if self.sp + 1 == self.stack.len() {
                    append_zeros(&mut self.stack, self.block);
                }
                self.sp += 1;
            },
            Opcode::SHL => {
                if self.sp != 0 {
                    self.sp -= 1;
                }
            },
            Opcode::ADD => {
                let v = self.stack[self.sp].wrapping_add(1);
                self.stack.set(self.sp, v);
            },
            Opcode::SUB => {
                let v = self.stack[self.sp].wrapping_sub(1);
                self.stack.set(self.sp, v);
            },
            Opcode::PUTCHAR => {
                signal = Signal::Output(self.stack[self.sp]);
            },
            Opcode::GETCHAR => {
                match input {
                    Some(b) => {
                        self.stack.set(self.sp, b);
                    },
                    None => {
                        return Err(Error::InputExhausted);
                    },
                }
            },
            Opcode::LB => {
                if self.stack[self.sp] == 0 {
                    self.pc = code.jump_target(self.pc);
                }
            },
            Opcode::RB => {
                if self.stack[self.sp] != 0 {
                    self.pc = code.jump_target(self.pc);
                }
            },
        }
        self.pc += 1;
        Ok(signal)
    }

    /// Loads the program `data` and runs it from its first instruction and
    /// from cell 0 of the tape as it stands, for at most `limit` steps. The
    /// input instructions take the bytes of `input` in turn, and the output
    /// instructions append to `output`.
    ///
    /// A program whose brackets do not pair up is refused before anything is
    /// executed or written. A run that reaches an input instruction when
    /// `input` is used up fails there; what was written before stays.
    pub fn run(&mut self, data: Vec<u8>, input: &[u8], output: &mut Vec<u8>, limit: usize) -> (r:
        Result<Stop, Error>)
        requires
            old(self).wf(),
        ensures
            final(self).wf(),
            (final(self)@, final(output)@, r) == run_program(
                old(self)@,
                data@,
                input@,
                old(output)@,
                limit as nat,
            ),
    {
        let ghost ops = decode(data@);
        let ghost goal = run_program(self@, data@, input@, output@, limit as nat);
        let code = match Code::from(data) {
            Ok(code) => code,
            Err(e) => {
                return Err(e);
            },
        };
        let ghost jt = code.jtable@;
        self.rewind();
        let mut steps: usize = 0;
        let mut consumed: usize = 0;
        loop
            invariant
                self.wf(),
                code.wf(),
                code.instrs@ == ops,
                code.jtable@ == jt,
                steps <= limit,
                consumed <= input@.len(),
                goal == run_program(old(self)@, data@, input@, old(output)@, limit as nat),
                run_from(ops, jt, self@, input@, consumed as int, output@, (limit - steps) as nat)
                    == goal,
            decreases limit - steps,
        {
            if self.pc >= code.instrs.len() {
                return Ok(Stop::Halted);
            }
            if steps >= limit {
                return Ok(Stop::LimitReached);
            }
            let byte = if self.wants_input(&code) {
                if consumed < input.len() {
                    let b = input[consumed];
                    consumed += 1;
                    Some(b)
                } else {
                    return Err(Error::InputExhausted);
                }
            } else {
                None
            };
            match self.step(&code, byte) {
                Ok(Signal::Output(b)) => {
                    output.push(b);
                },
                _ => {},
            }
            steps += 1;
        }
    }
}

} // verus!
