//! The text format: a header line that is not read, then one instruction
//! per line.
//!
//! ```text
//! <id> var-x | var-y
//! <id> const <literal>
//! <id> neg | sqrt | square <id>
//! <id> add | sub | mul | max | min <id> <id>
//! ```
//!
//! Words are separated by ASCII whitespace. An operand must name a slot
//! before the instruction's own position; a text that breaks this, or the
//! grammar, is refused as a whole.

use crate::ident::{id_value, parse_id_bytes};
use crate::literal::{is_float_literal, is_literal};
use crate::program::{Instruction, Op, Program};
use crate::text::{ascii, is_word, lines, split_lines, split_words, views, words};
use vstd::prelude::*;
use vstd::slice::slice_to_vec;
use vstd::string::StringSliceAdditionalSpecFns;

verus! {

/// Why a line is no instruction.
#[derive(Clone, Copy, Debug, PartialEq, Eq, Structural)]
pub enum Fault {
    /// The line holds no word.
    Blank,
    /// A register id is not hexadecimal digits after an optional prefix
    /// character, or its value does not fit.
    BadId,
    /// The line ends after the register id.
    MissingOpcode,
    /// The second word is none of the eleven operation names.
    UnknownOpcode,
    /// The operation is followed by too few or too many words.
    WrongArity,
    /// The word after `const` is no floating-point literal.
    BadLiteral,
    /// An operand names the instruction's own slot or a later one.
    UndefinedSlot,
}

/// Why a text is no program.
#[derive(Clone, Copy, Debug, PartialEq, Eq, Structural)]
pub enum ParseError {
    /// No line follows the header.
    Empty,
    /// The instruction line at `position`, counted from zero after the
    /// header, is at fault.
    Line { position: usize, fault: Fault },
}

/// The names of the operations.
#[derive(Clone, Copy, Debug, PartialEq, Eq, Structural)]
pub enum Opcode {
    VarX,
    VarY,
    Const,
    Add,
    Sub,
    Mul,
    Max,
    Min,
    Neg,
    Sqrt,
    Square,
}

impl Opcode {
    /// The number of words that follow the operation's name.
    pub open spec fn arity(self) -> nat {
        match self {
            Opcode::VarX | Opcode::VarY => 0,
            Opcode::Const | Opcode::Neg | Opcode::Sqrt | Opcode::Square => 1,
            Opcode::Add | Opcode::Sub | Opcode::Mul | Opcode::Max | Opcode::Min => 2,
        }
    }

    fn operands(&self) -> (n: usize)
        ensures
            n == self.arity(),
    {
        match self {
            Opcode::VarX | Opcode::VarY => 0,
            Opcode::Const | Opcode::Neg | Opcode::Sqrt | Opcode::Square => 1,
            Opcode::Add | Opcode::Sub | Opcode::Mul | Opcode::Max | Opcode::Min => 2,
        }
    }
}

/// The operation that `token` names.
pub open spec fn opcode_of(token: Seq<u8>) -> Option<Opcode> {
    if token == ascii("var-x"@) {
        Some(Opcode::VarX)
    } else if token == ascii("var-y"@) {
        Some(Opcode::VarY)
    } else if token == ascii("const"@) {
        Some(Opcode::Const)
    } else if token == ascii("add"@) {
        Some(Opcode::Add)
    } else if token == ascii("sub"@) {
        Some(Opcode::Sub)
    } else if token == ascii("mul"@) {
        Some(Opcode::Mul)
    } else if token == ascii("max"@) {
        Some(Opcode::Max)
    } else if token == ascii("min"@) {
        Some(Opcode::Min)
    } else if token == ascii("neg"@) {
        Some(Opcode::Neg)
    } else if token == ascii("sqrt"@) {
        Some(Opcode::Sqrt)
    } else if token == ascii("square"@) {
        Some(Opcode::Square)
    } else {
        None
    }
}

/// What is wrong with an operand of the instruction at `position`.
pub open spec fn operand_fault(token: Seq<u8>, position: nat) -> Option<Fault> {
    match id_value(token) {
        None => Some(Fault::BadId),
        Some(slot) => if slot < position {
            None
        } else {
            Some(Fault::UndefinedSlot)
        },
    }
}

/// The first thing that is wrong with the words of the instruction line at
/// `position`, reading from the left; `None` if the line is an instruction.
pub open spec fn line_fault(tokens: Seq<Seq<u8>>, position: nat) -> Option<Fault> {
    if tokens.len() == 0 {
        Some(Fault::Blank)
    } else if id_value(tokens[0]) is None {
        Some(Fault::BadId)
    } else if tokens.len() == 1 {
        Some(Fault::MissingOpcode)
    } else {
        match opcode_of(tokens[1]) {
            None => Some(Fault::UnknownOpcode),
            Some(code) => if tokens.len() != 2 + code.arity() {
                Some(Fault::WrongArity)
            } else {
                match code {
                    Opcode::VarX | Opcode::VarY => None,
                    Opcode::Const => if is_float_literal(tokens[2]) {
                        None
                    } else {
                        Some(Fault::BadLiteral)
                    },
                    Opcode::Neg | Opcode::Sqrt | Opcode::Square => operand_fault(
                        tokens[2],
                        position,
                    ),
                    _ => match operand_fault(tokens[2], position) {
                        Some(fault) => Some(fault),
                        None => operand_fault(tokens[3], position),
                    },
                }
            },
        }
    }
}

/// `decode` can be called on every floating-point literal.
pub open spec fn reads_literals<F: Fn(Vec<u8>) -> u64>(decode: &F) -> bool {
    forall|token: Vec<u8>| is_float_literal(token@) ==> #[trigger] decode.requires((token,))
}

/// `bits` is a value that `decode` gives for the literal `token`.
pub open spec fn decodes<F: Fn(Vec<u8>) -> u64>(decode: &F, token: Seq<u8>, bits: u64) -> bool {
    exists|owned: Vec<u8>| owned@ == token && #[trigger] decode.ensures((owned,), bits)
}

/// `instr` is what the words of a faultless line say, with the constant as
/// `decode` values it.
pub open spec fn encodes<F: Fn(Vec<u8>) -> u64>(
    tokens: Seq<Seq<u8>>,
    instr: Instruction,
    decode: &F,
) -> bool {
    &&& Some(instr.out) == id_value(tokens[0])
    &&& match opcode_of(tokens[1]) {
        Some(Opcode::VarX) => instr.op == Op::VarX,
        Some(Opcode::VarY) => instr.op == Op::VarY,
        Some(Opcode::Const) => instr.op matches Op::Const(bits) && decodes(
            decode,
            tokens[2],
            bits,
        ),
        Some(Opcode::Neg) => instr.op == Op::Neg(id_value(tokens[2]).unwrap()),
        Some(Opcode::Sqrt) => instr.op == Op::Sqrt(id_value(tokens[2]).unwrap()),
        Some(Opcode::Square) => instr.op == Op::Square(id_value(tokens[2]).unwrap()),
        Some(Opcode::Add) => instr.op == Op::Add(
            id_value(tokens[2]).unwrap(),
            id_value(tokens[3]).unwrap(),
        ),
        Some(Opcode::Sub) => instr.op == Op::Sub(
            id_value(tokens[2]).unwrap(),
            id_value(tokens[3]).unwrap(),
        ),
        Some(Opcode::Mul) => instr.op == Op::Mul(
            id_value(tokens[2]).unwrap(),
            id_value(tokens[3]).unwrap(),
        ),
        Some(Opcode::Max) => instr.op == Op::Max(
            id_value(tokens[2]).unwrap(),
            id_value(tokens[3]).unwrap(),
        ),
        Some(Opcode::Min) => instr.op == Op::Min(
            id_value(tokens[2]).unwrap(),
            id_value(tokens[3]).unwrap(),
        ),
        None => false,
    }
}

/// The instruction lines of a text: all lines but the first.
pub open spec fn body_lines(text: Seq<u8>) -> Seq<Seq<u8>> {
    if lines(text).len() == 0 {
        Seq::empty()
    } else {
        lines(text).skip(1)
    }
}

/// The fault of the first faulty line among those from `from` on.
pub open spec fn fault_from(body: Seq<Seq<u8>>, from: nat) -> Option<ParseError>
    decreases body.len() - from,
{
    if from >= body.len() {
        None
    } else {
        match line_fault(words(body[from as int]), from) {
            Some(fault) => Some(ParseError::Line { position: from as usize, fault }),
            None => fault_from(body, from + 1),
        }
    }
}

/// Why `text` is no program; `None` if it is one.
pub open spec fn text_fault(text: Seq<u8>) -> Option<ParseError> {
    if body_lines(text).len() == 0 {
        Some(ParseError::Empty)
    } else {
        fault_from(body_lines(text), 0)
    }
}

/// Reads the name of an operation.
pub fn parse_opcode(token: &[u8]) -> (r: Option<Opcode>)
    ensures
        r == opcode_of(token@),
{
    proof {
        reveal_strlit("var-x");
        reveal_strlit("var-y");
        reveal_strlit("const");
        reveal_strlit("add");
        reveal_strlit("sub");
        reveal_strlit("mul");
        reveal_strlit("max");
        reveal_strlit("min");
        reveal_strlit("neg");
        reveal_strlit("sqrt");
        reveal_strlit("square");
    }
    if is_word(token, "var-x") {
        Some(Opcode::VarX)
    } else if is_word(token, "var-y") {
        Some(Opcode::VarY)
    } else if is_word(token, "const") {
        Some(Opcode::Const)
    } else if is_word(token, "add") {
        Some(Opcode::Add)
    } else if is_word(token, "sub") {
        Some(Opcode::Sub)
    } else if is_word(token, "mul") {
        Some(Opcode::Mul)
    } else if is_word(token, "max") {
        Some(Opcode::Max)
    } else if is_word(token, "min") {
        Some(Opcode::Min)
    } else if is_word(token, "neg") {
        Some(Opcode::Neg)
    } else if is_word(token, "sqrt") {
        Some(Opcode::Sqrt)
    } else if is_word(token, "square") {
        Some(Opcode::Square)
    } else {
        None
    }
}

/// Reads an operand of the instruction at `position`.
fn parse_operand(token: &[u8], position: usize) -> (r: Result<usize, Fault>)
    ensures
        match r {
            Ok(slot) => operand_fault(token@, position as nat) is None && id_value(token@) == Some(
                slot,
            ) && slot < position,
            Err(fault) => operand_fault(token@, position as nat) == Some(fault),
        },
{
    match parse_id_bytes(token) {
        None => Err(Fault::BadId),
        Some(slot) => if slot < position {
            Ok(slot)
        } else {
            Err(Fault::UndefinedSlot)
        },
    }
}

impl Instruction {
    /// Reads the instruction line at `position`. Constants are valued by
    /// `decode`, which is called on nothing but a floating-point literal.
    pub fn parse<F: Fn(Vec<u8>) -> u64>(line: &[u8], position: usize, decode: &F) -> (r: Result<
        Instruction,
        Fault,
    >)
        requires
            reads_literals(decode),
        ensures
            match r {
                Ok(instr) => {
                    &&& line_fault(words(line@), position as nat) is None
                    &&& encodes(words(line@), instr, decode)
                    &&& instr.op.reads_before(position as int)
                },
                Err(fault) => line_fault(words(line@), position as nat) == Some(fault),
            },
    {
        let tokens = split_words(line);
        let ghost spec_tokens = words(line@);
        assert(forall|k: int| 0 <= k < tokens.len() ==> (#[trigger] tokens@[k])@ == spec_tokens[k]);
        if tokens.len() == 0 {
            return Err(Fault::Blank);
        }
        let out = match parse_id_bytes(tokens[0].as_slice()) {
            None => {
                return Err(Fault::BadId);
            },
            Some(out) => out,
        };
        if tokens.len() == 1 {
            return Err(Fault::MissingOpcode);
        }
        let code = match parse_opcode(tokens[1].as_slice()) {
            None => {
                return Err(Fault::UnknownOpcode);
            },
            Some(code) => code,
        };
        if tokens.len() - 2 != code.operands() {
            return Err(Fault::WrongArity);
        }
        let op = match code {
            Opcode::VarX => Op::VarX,
            Opcode::VarY => Op::VarY,
            Opcode::Const => {
                if !is_literal(tokens[2].as_slice()) {
                    return Err(Fault::BadLiteral);
                }
                let owned = slice_to_vec(tokens[2].as_slice());
                let bits = decode(owned);
                Op::Const(bits)
            },
            Opcode::Neg => match parse_operand(tokens[2].as_slice(), position) {
                Err(fault) => {
                    return Err(fault);
                },
                Ok(a) => Op::Neg(a),
            },
            Opcode::Sqrt => match parse_operand(tokens[2].as_slice(), position) {
                Err(fault) => {
                    return Err(fault);
                },
                Ok(a) => Op::Sqrt(a),
            },
            Opcode::Square => match parse_operand(tokens[2].as_slice(), position) {
                Err(fault) => {
                    return Err(fault);
                },
                Ok(a) => Op::Square(a),
            },
            _ => {
                let a = match parse_operand(tokens[2].as_slice(), position) {
                    Err(fault) => {
                        return Err(fault);
                    },
                    Ok(a) => a,
                };
                let b = match parse_operand(tokens[3].as_slice(), position) {
                    Err(fault) => {
                        return Err(fault);
                    },
                    Ok(b) => b,
                };
                match code {
                    Opcode::Add => Op::Add(a, b),
                    Opcode::Sub => Op::Sub(a, b),
                    Opcode::Mul => Op::Mul(a, b),
                    Opcode::Max => Op::Max(a, b),
                    _ => Op::Min(a, b),
                }
            },
        };
        Ok(Instruction { out, op })
    }
}

impl Program {
    /// Reads a program from the bytes of its text.
    pub fn parse_bytes<F: Fn(Vec<u8>) -> u64>(text: &[u8], decode: &F) -> (r: Result<
        Program,
        ParseError,
    >)
        requires
            reads_literals(decode),
        ensures
            match r {
                Ok(program) => {
                    &&& text_fault(text@) is None
                    &&& program.wf()
                    &&& program.instrs@.len() == body_lines(text@).len()
                    &&& forall|i: int|
                        0 <= i < program.instrs@.len() ==> encodes(
                            words(body_lines(text@)[i]),
                            #[trigger] program.instrs@[i],
                            decode,
                        )
                },
                Err(error) => text_fault(text@) == Some(error),
            },
    {
        let all = split_lines(text);
        let ghost body = body_lines(text@);
        if all.len() <= 1 {
            return Err(ParseError::Empty);
        }
        assert(forall|k: int| 0 <= k < body.len() ==> (#[trigger] all@[k + 1])@ == body[k]) by {
            assert(forall|k: int|
                0 <= k < all.len() ==> (#[trigger] all@[k])@ == views(all@)[k]);
        }
        let mut instrs: Vec<Instruction> = Vec::new();
        let mut i: usize = 1;
        while i < all.len()
            invariant
                1 <= i <= all.len(),
                body == body_lines(text@),
                all.len() == body.len() + 1,
                body.len() > 0,
                reads_literals(decode),
                forall|k: int| 0 <= k < body.len() ==> (#[trigger] all@[k + 1])@ == body[k],
                instrs@.len() == i - 1,
                fault_from(body, 0) == fault_from(body, (i - 1) as nat),
                forall|k: int|
                    0 <= k < instrs@.len() ==> (#[trigger] instrs@[k]).op.reads_before(k),
                forall|k: int|
                    0 <= k < instrs@.len() ==> encodes(words(body[k]), #[trigger] instrs@[k], decode),
            decreases all.len() - i,
        {
            assert(all@[(i - 1) + 1]@ == body[i - 1]);
            match Instruction::parse(all[i].as_slice(), i - 1, decode) {
                Err(fault) => {
                    assert(fault_from(body, (i - 1) as nat) == Some(
                        ParseError::Line { position: (i - 1) as usize, fault },
                    ));
                    return Err(ParseError::Line { position: i - 1, fault });
                },
                Ok(instr) => {
                    instrs.push(instr);
                },
            }
            i += 1;
        }
        Ok(Program { instrs })
    }

    /// Reads a program from its text.
    pub fn parse<F: Fn(Vec<u8>) -> u64>(text: &str, decode: &F) -> (r: Result<Program, ParseError>)
        requires
            reads_literals(decode),
        ensures
            match r {
                Ok(program) => {
                    &&& text_fault(text.spec_bytes()) is None
                    &&& program.wf()
                    &&& program.instrs@.len() == body_lines(text.spec_bytes()).len()
                    &&& forall|i: int|
                        0 <= i < program.instrs@.len() ==> encodes(
                            words(body_lines(text.spec_bytes())[i]),
                            #[trigger] program.instrs@[i],
                            decode,
                        )
                },
                Err(error) => text_fault(text.spec_bytes()) == Some(error),
            },
    {
        Program::parse_bytes(text.as_bytes(), decode)
    }
}

} // verus!
