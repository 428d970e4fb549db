use vstd::prelude::*;

verus! {

/// One instruction of the machine. Variants carrying a word are encoded as
/// their opcode word followed by that operand word; the rest are one word.
///
/// The opcode assignment is a stable binary format:
/// `Eof` 0x00, `Push` 0x01, `Pop` 0x02, `Dup` 0x03, `Swap` 0x04, `Load` 0x05,
/// `Store` 0x06, `LoadString` 0x07, `Jump` 0x08, `JumpZero` 0x09,
/// `JumpNotZero` 0x0A, `Call` 0x0B, `Return` 0x0C, `Print` 0x0D, `Send` 0x0E,
/// `Halt` 0x0F, `Noop` 0x10. `Eof` is the stream terminator; zeroed memory
/// therefore reads as an already-terminated stream.
#[derive(Debug, Clone, Copy, PartialEq, Eq, Structural)]
pub enum Op {
    Noop,
    Halt,
    Eof,
    Push(u16),
    Pop,
    Dup,
    Swap,
    Load(u16),
    Store(u16),
    LoadString(u16),
    Jump(u16),
    JumpZero(u16),
    JumpNotZero(u16),
    Call(u16),
    Return,
    Print,
    Send,
}

/// The opcode word of an instruction.
pub open spec fn opcode_of(op: Op) -> u16 {
    match op {
        Op::Eof => 0x00,
        Op::Push(_) => 0x01,
        Op::Pop => 0x02,
        Op::Dup => 0x03,
        Op::Swap => 0x04,
        Op::Load(_) => 0x05,
        Op::Store(_) => 0x06,
        Op::LoadString(_) => 0x07,
        Op::Jump(_) => 0x08,
        Op::JumpZero(_) => 0x09,
        Op::JumpNotZero(_) => 0x0A,
        Op::Call(_) => 0x0B,
        Op::Return => 0x0C,
        Op::Print => 0x0D,
        Op::Send => 0x0E,
        Op::Halt => 0x0F,
        Op::Noop => 0x10,
    }
}

/// The inline operand of an instruction, for the variants that carry one.
pub open spec fn operand_of(op: Op) -> Option<u16> {
    match op {
        Op::Push(v) => Some(v),
        Op::Load(v) => Some(v),
        Op::Store(v) => Some(v),
        Op::LoadString(v) => Some(v),
        Op::Jump(v) => Some(v),
        Op::JumpZero(v) => Some(v),
        Op::JumpNotZero(v) => Some(v),
        Op::Call(v) => Some(v),
        _ => None,
    }
}

/// Encoded length of one instruction, in words.
pub open spec fn op_size(op: Op) -> nat {
    match operand_of(op) {
        Some(_) => 2,
        None => 1,
    }
}

/// The encoding of one instruction: its opcode word, then its operand if any.
pub open spec fn encode_op(op: Op) -> Seq<u16> {
    match operand_of(op) {
        Some(v) => seq![opcode_of(op), v],
        None => seq![opcode_of(op)],
    }
}

/// The instruction denoted by an opcode word and the operand word that
/// follows it, or `None` if the opcode word names no instruction.
pub open spec fn decode_op(opcode: u16, operand: u16) -> Option<Op> {
    if opcode == 0x00 {
        Some(Op::Eof)
    } else if opcode == 0x01 {
        Some(Op::Push(operand))
    } else if opcode == 0x02 {
        Some(Op::Pop)
    } else if opcode == 0x03 {
        Some(Op::Dup)
    } else if opcode == 0x04 {
        Some(Op::Swap)
    } else if opcode == 0x05 {
        Some(Op::Load(operand))
    } else if opcode == 0x06 {
        Some(Op::Store(operand))
    } else if opcode == 0x07 {
        Some(Op::LoadString(operand))
    } else if opcode == 0x08 {
        Some(Op::Jump(operand))
    } else if opcode == 0x09 {
        Some(Op::JumpZero(operand))
    } else if opcode == 0x0A {
        Some(Op::JumpNotZero(operand))
    } else if opcode == 0x0B {
        Some(Op::Call(operand))
    } else if opcode == 0x0C {
        Some(Op::Return)
    } else if opcode == 0x0D {
        Some(Op::Print)
    } else if opcode == 0x0E {
        Some(Op::Send)
    } else if opcode == 0x0F {
        Some(Op::Halt)
    } else if opcode == 0x10 {
        Some(Op::Noop)
    } else {
        None
    }
}

impl Op {
    /// The opcode word of this instruction.
    pub fn opcode(&self) -> (r: u16)
        ensures
            r == opcode_of(*self),
    {
        match self {
            Op::Eof => 0x00,
            Op::Push(_) => 0x01,
            Op::Pop => 0x02,
            Op::Dup => 0x03,
            Op::Swap => 0x04,
            Op::Load(_) => 0x05,
            Op::Store(_) => 0x06,
            Op::LoadString(_) => 0x07,
            Op::Jump(_) => 0x08,
            Op::JumpZero(_) => 0x09,
            Op::JumpNotZero(_) => 0x0A,
            Op::Call(_) => 0x0B,
            Op::Return => 0x0C,
            Op::Print => 0x0D,
            Op::Send => 0x0E,
            Op::Halt => 0x0F,
            Op::Noop => 0x10,
        }
    }

    /// The inline operand, for the variants that carry one.
    pub fn operand(&self) -> (r: Option<u16>)
        ensures
            r == operand_of(*self),
    {
        match self {
            Op::Push(v) => Some(*v),
            Op::Load(v) => Some(*v),
            Op::Store(v) => Some(*v),
            Op::LoadString(v) => Some(*v),
            Op::Jump(v) => Some(*v),
            Op::JumpZero(v) => Some(*v),
            Op::JumpNotZero(v) => Some(*v),
            Op::Call(v) => Some(*v),
            _ => None,
        }
    }
}

/// Decoding inverts encoding: reading back the opcode word of an instruction,
/// with the word that follows it in any stream as candidate operand, yields
/// the instruction itself.
pub proof fn lemma_decode_encode(op: Op, filler: u16)
    ensures
        operand_of(op) is Some ==> decode_op(opcode_of(op), operand_of(op)->0) == Some(op),
        operand_of(op) is None ==> decode_op(opcode_of(op), filler) == Some(op),
{
}

} // verus!
