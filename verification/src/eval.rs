//! Evaluation: one pass over the instructions, each filling its own slot.
//!
//! The arithmetic is not fixed here. It is a function from a request, which
//! holds the operand values, to the value of the result; the evaluator is
//! proved for every such function.

use crate::program::{Op, Program};
use vstd::prelude::*;

verus! {

/// A request to the arithmetic unit: an operation on given values.
#[derive(Clone, Copy, Debug, PartialEq, Eq, Structural)]
pub enum Arith {
    Neg(u64),
    Sqrt(u64),
    Add(u64, u64),
    Sub(u64, u64),
    Mul(u64, u64),
    Max(u64, u64),
    Min(u64, u64),
}

/// `unit` can be called on every request.
pub open spec fn total<F: Fn(Arith) -> u64>(unit: &F) -> bool {
    forall|request: Arith| #[trigger] unit.requires((request,))
}

/// `unit` answers each request in one way only.
pub open spec fn functional<F: Fn(Arith) -> u64>(unit: &F) -> bool {
    forall|request: Arith, v: u64, w: u64|
        unit.ensures((request,), v) && unit.ensures((request,), w) ==> v == w
}

/// The request that `op` makes when the slots hold `slots`; `None` for an
/// operation that computes nothing. A square is the product of a value with
/// itself.
pub open spec fn request(op: Op, slots: Seq<u64>) -> Option<Arith> {
    match op {
        Op::VarX | Op::VarY | Op::Const(_) => None,
        Op::Neg(a) => Some(Arith::Neg(slots[a as int])),
        Op::Sqrt(a) => Some(Arith::Sqrt(slots[a as int])),
        Op::Square(a) => Some(Arith::Mul(slots[a as int], slots[a as int])),
        Op::Add(a, b) => Some(Arith::Add(slots[a as int], slots[b as int])),
        Op::Sub(a, b) => Some(Arith::Sub(slots[a as int], slots[b as int])),
        Op::Mul(a, b) => Some(Arith::Mul(slots[a as int], slots[b as int])),
        Op::Max(a, b) => Some(Arith::Max(slots[a as int], slots[b as int])),
        Op::Min(a, b) => Some(Arith::Min(slots[a as int], slots[b as int])),
    }
}

/// `v` is a value that `op` may leave in its slot at the sample `(x, y)`
/// when the slots hold `slots`.
pub open spec fn admits<F: Fn(Arith) -> u64>(
    op: Op,
    slots: Seq<u64>,
    x: u64,
    y: u64,
    unit: &F,
    v: u64,
) -> bool {
    match op {
        Op::VarX => v == x,
        Op::VarY => v == y,
        Op::Const(c) => v == c,
        _ => unit.ensures((request(op, slots).unwrap(),), v),
    }
}

impl Program {
    /// `slots` is a run of the program at the sample `(x, y)`: one value per
    /// instruction, each admitted by its operation.
    pub open spec fn traces<F: Fn(Arith) -> u64>(
        &self,
        unit: &F,
        x: u64,
        y: u64,
        slots: Seq<u64>,
    ) -> bool {
        &&& slots.len() == self.instrs@.len()
        &&& forall|i: int|
            0 <= i < slots.len() ==> admits(self.instrs@[i].op, slots, x, y, unit, #[trigger] slots[i])
    }

    /// `v` is the value of the last slot after some run at `(x, y)`.
    pub open spec fn yields<F: Fn(Arith) -> u64>(&self, unit: &F, x: u64, y: u64, v: u64) -> bool {
        exists|slots: Seq<u64>|
            #![trigger self.traces(unit, x, y, slots)]
            self.traces(unit, x, y, slots) && slots.len() > 0 && v == slots.last()
    }

    /// Runs the program at the sample `(x, y)` and returns the value of its
    /// last instruction.
    pub fn execute<F: Fn(Arith) -> u64>(&self, x: u64, y: u64, unit: &F) -> (v: u64)
        requires
            self.wf(),
            total(unit),
        ensures
            self.yields(unit, x, y, v),
    {
        let n = self.instrs.len();
        let mut slots: Vec<u64> = Vec::new();
        let mut i: usize = 0;
        while i < n
            invariant
                i <= n,
                n == self.instrs@.len(),
                self.wf(),
                total(unit),
                slots@.len() == i,
                forall|j: int|
                    0 <= j < i ==> admits(self.instrs@[j].op, slots@, x, y, unit, #[trigger] slots@[j]),
            decreases n - i,
        {
            let ghost before = slots@;
            assert(self.instrs@[i as int].op.reads_before(i as int));
            let v = match self.instrs[i].op {
                Op::VarX => x,
                Op::VarY => y,
                Op::Const(c) => c,
                Op::Neg(a) => unit(Arith::Neg(slots[a])),
                Op::Sqrt(a) => unit(Arith::Sqrt(slots[a])),
                Op::Square(a) => unit(Arith::Mul(slots[a], slots[a])),
                Op::Add(a, b) => unit(Arith::Add(slots[a], slots[b])),
                Op::Sub(a, b) => unit(Arith::Sub(slots[a], slots[b])),
                Op::Mul(a, b) => unit(Arith::Mul(slots[a], slots[b])),
                Op::Max(a, b) => unit(Arith::Max(slots[a], slots[b])),
                Op::Min(a, b) => unit(Arith::Min(slots[a], slots[b])),
            };
            slots.push(v);
            proof {
                assert forall|j: int| 0 <= j < i + 1 implies admits(
                    self.instrs@[j].op,
                    slots@,
                    x,
                    y,
                    unit,
                    #[trigger] slots@[j],
                ) by {
                    assert(self.instrs@[j].op.reads_before(j));
                    lemma_request_reads_prefix(self.instrs@[j].op, before, slots@, j);
                    if j < i {
                        assert(admits(self.instrs@[j].op, before, x, y, unit, before[j]));
                    }
                }
            }
            i += 1;
        }
        assert(self.traces(unit, x, y, slots@));
        slots[n - 1]
    }
}

/// A request depends only on the slots that the operation reads.
pub proof fn lemma_request_reads_prefix(op: Op, short: Seq<u64>, long: Seq<u64>, limit: int)
    requires
        op.reads_before(limit),
        0 <= limit <= short.len() <= long.len(),
        forall|k: int| 0 <= k < limit ==> short[k] == long[k],
    ensures
        request(op, short) == request(op, long),
{
}

/// A program that ends in a constant yields that constant at every sample.
pub proof fn law_constant<F: Fn(Arith) -> u64>(
    program: &Program,
    unit: &F,
    x: u64,
    y: u64,
    v: u64,
    c: u64,
)
    requires
        program.instrs@.len() > 0,
        program.instrs@.last().op == Op::Const(c),
        program.yields(unit, x, y, v),
    ensures
        v == c,
{
    let slots = choose|slots: Seq<u64>|
        #![trigger program.traces(unit, x, y, slots)]
        program.traces(unit, x, y, slots) && slots.len() > 0 && v == slots.last();
    assert(admits(program.instrs@[slots.len() - 1].op, slots, x, y, unit, slots[slots.len() - 1]));
}

/// A program that ends in `var-x` yields the sample's first coordinate, and
/// one that ends in `var-y` its second.
pub proof fn law_variable<F: Fn(Arith) -> u64>(program: &Program, unit: &F, x: u64, y: u64, v: u64)
    requires
        program.instrs@.len() > 0,
        program.yields(unit, x, y, v),
    ensures
        program.instrs@.last().op == Op::VarX ==> v == x,
        program.instrs@.last().op == Op::VarY ==> v == y,
{
    let slots = choose|slots: Seq<u64>|
        #![trigger program.traces(unit, x, y, slots)]
        program.traces(unit, x, y, slots) && slots.len() > 0 && v == slots.last();
    assert(admits(program.instrs@[slots.len() - 1].op, slots, x, y, unit, slots[slots.len() - 1]));
}

/// The square of a slot is what the product of the slot with itself is: the
/// two operations admit the same values, bit for bit, whatever the slot
/// holds.
pub proof fn law_square_is_product<F: Fn(Arith) -> u64>(
    n: usize,
    slots: Seq<u64>,
    x: u64,
    y: u64,
    unit: &F,
    v: u64,
)
    ensures
        admits(Op::Square(n), slots, x, y, unit, v) == admits(Op::Mul(n, n), slots, x, y, unit, v),
{
}

/// With an arithmetic unit that answers each request in one way, a program
/// has one run at each sample.
pub proof fn law_one_run<F: Fn(Arith) -> u64>(
    program: &Program,
    unit: &F,
    x: u64,
    y: u64,
    first: Seq<u64>,
    second: Seq<u64>,
)
    requires
        program.wf(),
        functional(unit),
        program.traces(unit, x, y, first),
        program.traces(unit, x, y, second),
    ensures
        first == second,
{
    lemma_runs_agree(program, unit, x, y, first, second, first.len() as int);
    assert(first =~= second);
}

proof fn lemma_runs_agree<F: Fn(Arith) -> u64>(
    program: &Program,
    unit: &F,
    x: u64,
    y: u64,
    first: Seq<u64>,
    second: Seq<u64>,
    upto: int,
)
    requires
        program.wf(),
        functional(unit),
        program.traces(unit, x, y, first),
        program.traces(unit, x, y, second),
        0 <= upto <= first.len(),
    ensures
        forall|k: int| 0 <= k < upto ==> first[k] == second[k],
    decreases upto,
{
    if upto > 0 {
        lemma_runs_agree(program, unit, x, y, first, second, upto - 1);
        let i = upto - 1;
        let op = program.instrs@[i].op;
        assert(op.reads_before(i));
        assert(admits(op, first, x, y, unit, first[i]));
        assert(admits(op, second, x, y, unit, second[i]));
        assert(request(op, first) == request(op, second));
    }
}

/// With an arithmetic unit that answers each request in one way, a program
/// yields one value at each sample: evaluation is a function of the program
/// and the sample.
pub proof fn law_one_value<F: Fn(Arith) -> u64>(
    program: &Program,
    unit: &F,
    x: u64,
    y: u64,
    v: u64,
    w: u64,
)
    requires
        program.wf(),
        functional(unit),
        program.yields(unit, x, y, v),
        program.yields(unit, x, y, w),
    ensures
        v == w,
{
    let first = choose|slots: Seq<u64>|
        #![trigger program.traces(unit, x, y, slots)]
        program.traces(unit, x, y, slots) && slots.len() > 0 && v == slots.last();
    let second = choose|slots: Seq<u64>|
        #![trigger program.traces(unit, x, y, slots)]
        program.traces(unit, x, y, slots) && slots.len() > 0 && w == slots.last();
    law_one_run(program, unit, x, y, first, second);
}

} // verus!
