use vstd::prelude::*;
use std::collections::HashMap;
use crate::error::Error;
use crate::brackets::{
    balanced, build_jump_table, is_jump_table, jump_table, matched, paired,
};

verus! {

/// The byte `>`.
pub const SHR_BYTE: u8 = 0x3e;
/// The byte `<`.
pub const SHL_BYTE: u8 = 0x3c;
/// The byte `+`.
pub const ADD_BYTE: u8 = 0x2b;
/// The byte `-`.
pub const SUB_BYTE: u8 = 0x2d;
/// The byte `.`.
pub const PUTCHAR_BYTE: u8 = 0x2e;
/// The byte `,`.
pub const GETCHAR_BYTE: u8 = 0x2c;
/// The byte `[`.
pub const LB_BYTE: u8 = 0x5b;
/// The byte `]`.
pub const RB_BYTE: u8 = 0x5d;

/// One of the eight instructions.
#[derive(Debug, Clone, Copy, PartialEq, Eq, Structural)]
pub enum Opcode {
    /// `>`: move the cursor one cell to the right.
    SHR,
    /// `<`: move the cursor one cell to the left, unless it is at cell 0.
    SHL,
    /// `+`: add one to the current cell, wrapping at 256.
    ADD,
    /// `-`: subtract one from the current cell, wrapping at 0.
    SUB,
    /// `.`: write the current cell to the output.
    PUTCHAR,
    /// `,`: read one byte of input into the current cell.
    GETCHAR,
    /// `[`: jump past the paired `]` if the current cell is zero.
    LB,
    /// `]`: jump back past the paired `[` if the current cell is not zero.
    RB,
}

impl Opcode {
    /// Whether `u` is one of the eight instruction symbols.
    pub open spec fn recognized(u: u8) -> bool {
        u == SHR_BYTE || u == SHL_BYTE || u == ADD_BYTE || u == SUB_BYTE || u == PUTCHAR_BYTE
            || u == GETCHAR_BYTE || u == LB_BYTE || u == RB_BYTE
    }

    /// The instruction that the symbol `u` stands for.
    pub open spec fn of_byte(u: u8) -> Opcode
        recommends
            Opcode::recognized(u),
    {
        if u == SHR_BYTE {
            Opcode::SHR
        } else if u == SHL_BYTE {
            Opcode::SHL
        } else if u == ADD_BYTE {
            Opcode::ADD
        } else if u == SUB_BYTE {
            Opcode::SUB
        } else if u == PUTCHAR_BYTE {
            Opcode::PUTCHAR
        } else if u == GETCHAR_BYTE {
            Opcode::GETCHAR
        } else if u == LB_BYTE {
            Opcode::LB
        } else {
            Opcode::RB
        }
    }

    /// The symbol that stands for this instruction.
    pub open spec fn byte(self) -> u8 {
        match self {
            Opcode::SHR => SHR_BYTE,
            Opcode::SHL => SHL_BYTE,
            Opcode::ADD => ADD_BYTE,
            Opcode::SUB => SUB_BYTE,
            Opcode::PUTCHAR => PUTCHAR_BYTE,
            Opcode::GETCHAR => GETCHAR_BYTE,
            Opcode::LB => LB_BYTE,
            Opcode::RB => RB_BYTE,
        }
    }

    /// Whether this instruction is one of the two brackets.
    pub open spec fn is_bracket(self) -> bool {
        self == Opcode::LB || self == Opcode::RB
    }

    /// Tells whether the byte `u` is an instruction symbol.
    pub fn is_symbol(u: u8) -> (b: bool)
        ensures
            b == Opcode::recognized(u),
    {
        u == SHR_BYTE || u == SHL_BYTE || u == ADD_BYTE || u == SUB_BYTE || u == PUTCHAR_BYTE
            || u == GETCHAR_BYTE || u == LB_BYTE || u == RB_BYTE
    }

    /// Turns an instruction symbol into its instruction.
    pub fn from(u: u8) -> (op: Opcode)
        requires
            Opcode::recognized(u),
        ensures
            op == Opcode::of_byte(u),
            op.byte() == u,
    {
        if u == SHR_BYTE {
            Opcode::SHR
        } else if u == SHL_BYTE {
            Opcode::SHL
        } else if u == ADD_BYTE {
            Opcode::ADD
        } else if u == SUB_BYTE {
            Opcode::SUB
        } else if u == PUTCHAR_BYTE {
            Opcode::PUTCHAR
        } else if u == GETCHAR_BYTE {
            Opcode::GETCHAR
        } else if u == LB_BYTE {
            Opcode::LB
        } else {
            Opcode::RB
        }
    }

    /// Gives the symbol of an instruction.
    pub fn to_byte(self) -> (u: u8)
        ensures
            u == self.byte(),
            Opcode::recognized(u),
            Opcode::of_byte(u) == self,
    {
        match self {
            Opcode::SHR => SHR_BYTE,
            Opcode::SHL => SHL_BYTE,
            Opcode::ADD => ADD_BYTE,
            Opcode::SUB => SUB_BYTE,
            Opcode::PUTCHAR => PUTCHAR_BYTE,
            Opcode::GETCHAR => GETCHAR_BYTE,
            Opcode::LB => LB_BYTE,
            Opcode::RB => RB_BYTE,
        }
    }
}

/// The instructions that a byte sequence holds: its instruction symbols, in
/// their order, each as its instruction. Every other byte is commentary.
pub open spec fn decode(data: Seq<u8>) -> Seq<Opcode> {
    data.filter(|u: u8| Opcode::recognized(u)).map_values(|u: u8| Opcode::of_byte(u))
}

/// A byte that is no instruction symbol can stand anywhere in a program
/// without changing its instructions.
pub proof fn lemma_commentary_skipped(before: Seq<u8>, x: u8, after: Seq<u8>)
    requires
        !Opcode::recognized(x),
    ensures
        decode(before.push(x) + after) == decode(before + after),
{
    let keep = |u: u8| Opcode::recognized(u);
    Seq::filter_distributes_over_add(before.push(x), after, keep);
    Seq::filter_distributes_over_add(before, after, keep);
    before.lemma_filter_push(x, keep);
}

/// Reads the instructions out of a byte sequence, skipping commentary.
pub fn load(data: &Vec<u8>) -> (instrs: Vec<Opcode>)
    ensures
        instrs@ == decode(data@),
{
    let mut instrs: Vec<Opcode> = Vec::new();
    let n = data.len();
    let mut index: usize = 0;
    while index < n
        invariant
            n == data@.len(),
            index <= n,
            instrs@ == decode(data@.take(index as int)),
        decreases n - index,
    {
        let item = data[index];
        proof {
            let head = data@.take(index as int);
            head.lemma_filter_push(item, |u: u8| Opcode::recognized(u));
            head.filter(|u: u8| Opcode::recognized(u)).lemma_push_map_commute(
                |u: u8| Opcode::of_byte(u),
                item,
            );
            assert(data@.take(index + 1) =~= head.push(item));
        }
        if Opcode::is_symbol(item) {
            instrs.push(Opcode::from(item));
        }
        index += 1;
    }
    proof {
        assert(data@.take(n as int) =~= data@);
    }
    instrs
}

/// A loaded program: its instructions and the table that pairs its brackets.
pub struct Code {
    /// The instructions, in program order.
    pub instrs: Vec<Opcode>,
    /// For each bracket's position, the position of the bracket paired with it.
    pub jtable: HashMap<usize, usize>,
}

impl Code {
    /// The table holds exactly the bracket pairs of the instructions.
    pub open spec fn wf(&self) -> bool {
        is_jump_table(self.instrs@, self.jtable@)
    }

    /// Loads a program from raw bytes. The bytes that are no instruction
    /// symbols are skipped. Loading fails exactly when the brackets of the
    /// rest do not pair up: a `]` with no open `[` before it, or a `[` that
    /// is still open at the end.
    pub fn from(data: Vec<u8>) -> (r: Result<Code, Error>)
        ensures
            r is Ok <==> balanced(decode(data@)),
            match r {
                Ok(code) => {
                    &&& code.wf()
                    &&& code.instrs@ == decode(data@)
                    &&& code.jtable@ == jump_table(decode(data@))
                },
                Err(e) => e == Error::UnbalancedBracket,
            },
    {
        let instrs = load(&data);
        match build_jump_table(&instrs) {
            Ok(jtable) => Ok(Code { instrs, jtable }),
            Err(e) => Err(e),
        }
    }
    /// The position of the bracket paired with the bracket at `at`.
    pub fn jump_target(&self, at: usize) -> (target: usize)
        requires
            self.wf(),
            at < self.instrs@.len(),
            self.instrs@[at as int].is_bracket(),
        ensures
            target == self.jtable@[at],
            target < self.instrs@.len(),
            self.jtable@[target] == at,
            self.instrs@[at as int] == Opcode::LB ==> matched(
                self.instrs@,
                at as int,
                target as int,
            ),
            self.instrs@[at as int] == Opcode::RB ==> matched(
                self.instrs@,
                target as int,
                at as int,
            ),
    {
        broadcast use vstd::std_specs::hash::group_hash_axioms;

        proof {
            assert(self.jtable@.contains_key(at));
            assert(paired(self.instrs@, self.jtable@, at));
        }
        match self.jtable.get(&at) {
            Some(target) => *target,
            None => at,
        }
    }
}

} // verus!
