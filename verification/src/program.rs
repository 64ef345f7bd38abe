//! Programs: straight-line code in which every instruction fills the slot
//! at its own position from slots filled before it.

use vstd::prelude::*;

verus! {

/// One operation. An operand is the position of the instruction whose result
/// it reads; a constant is held as its binary64 bit pattern.
#[derive(Clone, Copy, Debug, PartialEq, Eq, Structural)]
pub enum Op {
    VarX,
    VarY,
    Add(usize, usize),
    Sub(usize, usize),
    Mul(usize, usize),
    Max(usize, usize),
    Min(usize, usize),
    Neg(usize),
    Sqrt(usize),
    Square(usize),
    Const(u64),
}

/// An operation together with the register id that the text gave it. The id
/// is a label: the result lives in the slot at the instruction's position.
#[derive(Clone, Copy, Debug, PartialEq, Eq, Structural)]
pub struct Instruction {
    pub out: usize,
    pub op: Op,
}

/// Instructions in program order.
#[derive(Debug, PartialEq, Eq)]
pub struct Program {
    pub instrs: Vec<Instruction>,
}

impl Op {
    /// Every slot that the operation reads lies before `limit`.
    pub open spec fn reads_before(self, limit: int) -> bool {
        match self {
            Op::VarX | Op::VarY | Op::Const(_) => true,
            Op::Neg(a) | Op::Sqrt(a) | Op::Square(a) => a < limit,
            Op::Add(a, b) | Op::Sub(a, b) | Op::Mul(a, b) | Op::Max(a, b) | Op::Min(a, b) => a
                < limit && b < limit,
        }
    }

    /// Tests [`Op::reads_before`].
    pub fn check_reads_before(&self, limit: usize) -> (r: bool)
        ensures
            r == self.reads_before(limit as int),
    {
        match *self {
            Op::VarX | Op::VarY | Op::Const(_) => true,
            Op::Neg(a) | Op::Sqrt(a) | Op::Square(a) => a < limit,
            Op::Add(a, b) | Op::Sub(a, b) | Op::Mul(a, b) | Op::Max(a, b) | Op::Min(a, b) => a
                < limit && b < limit,
        }
    }
}

/// A list of instructions is a program if it is not empty and each
/// instruction reads only slots of instructions before it.
pub open spec fn well_formed(instrs: Seq<Instruction>) -> bool {
    &&& instrs.len() > 0
    &&& forall|i: int| 0 <= i < instrs.len() ==> (#[trigger] instrs[i]).op.reads_before(i)
}

impl Program {
    pub open spec fn wf(&self) -> bool {
        well_formed(self.instrs@)
    }

    /// Makes a program of `instrs` if they form one.
    pub fn new(instrs: Vec<Instruction>) -> (r: Option<Program>)
        ensures
            r is Some <==> well_formed(instrs@),
            r matches Some(p) ==> p.instrs == instrs,
    {
        let candidate = Program { instrs };
        if candidate.is_well_formed() {
            Some(candidate)
        } else {
            None
        }
    }

    /// Tests [`Program::wf`].
    pub fn is_well_formed(&self) -> (r: bool)
        ensures
            r == self.wf(),
    {
        if self.instrs.len() == 0 {
            return false;
        }
        let mut i: usize = 0;
        while i < self.instrs.len()
            invariant
                i <= self.instrs.len(),
                forall|j: int| 0 <= j < i ==> (#[trigger] self.instrs@[j]).op.reads_before(j),
            decreases self.instrs.len() - i,
        {
            if !self.instrs[i].op.check_reads_before(i) {
                return false;
            }
            i += 1;
        }
        true
    }

    /// The number of instructions, which is the number of slots.
    pub fn len(&self) -> (n: usize)
        ensures
            n == self.instrs@.len(),
    {
        self.instrs.len()
    }
}

} // verus!
