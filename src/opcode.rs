use vstd::prelude::*;

verus! {

/// The instruction kinds understood by the machine, each encoded as one byte.
#[derive(Clone, Copy, Debug, PartialEq, Eq, Structural)]
pub enum Opcode {
    Return,
    Constant,
    Negate,
    Add,
    Subtract,
    Multiply,
    Divide,
    Mod,
    Nil,
    True,
    False,
    Not,
    Equal,
    Greater,
    Less,
    LogicalAnd,
    LogicalOr,
    BitwiseAnd,
    BitwiseOr,
    Print,
    Pop,
    DefineGlobal,
    GetGlobal,
    SetGlobal,
    GetLocal,
    SetLocal,
    JumpIfFalse,
    Jump,
    Unknown,
}

/// The byte that encodes an instruction kind.
pub open spec fn byte_of(op: Opcode) -> u8 {
    match op {
        Opcode::Return => 0,
        Opcode::Constant => 1,
        Opcode::Negate => 2,
        Opcode::Add => 3,
        Opcode::Subtract => 4,
        Opcode::Multiply => 5,
        Opcode::Divide => 6,
        Opcode::Mod => 7,
        Opcode::Nil => 8,
        Opcode::True => 9,
        Opcode::False => 10,
        Opcode::Not => 11,
        Opcode::Equal => 12,
        Opcode::Greater => 13,
        Opcode::Less => 14,
        Opcode::LogicalAnd => 15,
        Opcode::LogicalOr => 16,
        Opcode::BitwiseAnd => 17,
        Opcode::BitwiseOr => 18,
        Opcode::Print => 19,
        Opcode::Pop => 20,
        Opcode::DefineGlobal => 21,
        Opcode::GetGlobal => 22,
        Opcode::SetGlobal => 23,
        Opcode::GetLocal => 24,
        Opcode::SetLocal => 25,
        Opcode::JumpIfFalse => 26,
        Opcode::Jump => 27,
        Opcode::Unknown => 28,
    }
}

/// The highest byte that encodes a real instruction.
pub const LAST_OPCODE_BYTE: u8 = 27;

/// Decoding: every byte maps to an instruction kind, bytes past the table to `Unknown`.
pub open spec fn decode(x: u8) -> Opcode {
    if x == 0 { Opcode::Return }
    else if x == 1 { Opcode::Constant }
    else if x == 2 { Opcode::Negate }
    else if x == 3 { Opcode::Add }
    else if x == 4 { Opcode::Subtract }
    else if x == 5 { Opcode::Multiply }
    else if x == 6 { Opcode::Divide }
    else if x == 7 { Opcode::Mod }
    else if x == 8 { Opcode::Nil }
    else if x == 9 { Opcode::True }
    else if x == 10 { Opcode::False }
    else if x == 11 { Opcode::Not }
    else if x == 12 { Opcode::Equal }
    else if x == 13 { Opcode::Greater }
    else if x == 14 { Opcode::Less }
    else if x == 15 { Opcode::LogicalAnd }
    else if x == 16 { Opcode::LogicalOr }
    else if x == 17 { Opcode::BitwiseAnd }
    else if x == 18 { Opcode::BitwiseOr }
    else if x == 19 { Opcode::Print }
    else if x == 20 { Opcode::Pop }
    else if x == 21 { Opcode::DefineGlobal }
    else if x == 22 { Opcode::GetGlobal }
    else if x == 23 { Opcode::SetGlobal }
    else if x == 24 { Opcode::GetLocal }
    else if x == 25 { Opcode::SetLocal }
    else if x == 26 { Opcode::JumpIfFalse }
    else if x == 27 { Opcode::Jump }
    else { Opcode::Unknown }
}

/// Number of operand bytes that follow an instruction of this kind.
pub open spec fn operand_count(op: Opcode) -> nat {
    match op {
        Opcode::Constant | Opcode::DefineGlobal | Opcode::GetGlobal | Opcode::SetGlobal
        | Opcode::GetLocal | Opcode::SetLocal => 1,
        Opcode::JumpIfFalse | Opcode::Jump => 2,
        _ => 0,
    }
}

/// Decodes one instruction byte; any byte outside the table gives `Unknown`.
pub fn from_u8(x: u8) -> (r: Opcode)
    ensures
        r == decode(x),
        x <= LAST_OPCODE_BYTE ==> byte_of(r) == x,
        x > LAST_OPCODE_BYTE ==> r == Opcode::Unknown,
{
    match x {
        0 => Opcode::Return,
        1 => Opcode::Constant,
        2 => Opcode::Negate,
        3 => Opcode::Add,
        4 => Opcode::Subtract,
        5 => Opcode::Multiply,
        6 => Opcode::Divide,
        7 => Opcode::Mod,
        8 => Opcode::Nil,
        9 => Opcode::True,
        10 => Opcode::False,
        11 => Opcode::Not,
        12 => Opcode::Equal,
        13 => Opcode::Greater,
        14 => Opcode::Less,
        15 => Opcode::LogicalAnd,
        16 => Opcode::LogicalOr,
        17 => Opcode::BitwiseAnd,
        18 => Opcode::BitwiseOr,
        19 => Opcode::Print,
        20 => Opcode::Pop,
        21 => Opcode::DefineGlobal,
        22 => Opcode::GetGlobal,
        23 => Opcode::SetGlobal,
        24 => Opcode::GetLocal,
        25 => Opcode::SetLocal,
        26 => Opcode::JumpIfFalse,
        27 => Opcode::Jump,
        _ => Opcode::Unknown,
    }
}

impl Opcode {
    /// Encodes an instruction kind as its byte.
    pub fn to_u8(self) -> (r: u8)
        ensures
            r == byte_of(self),
    {
        match self {
            Opcode::Return => 0,
            Opcode::Constant => 1,
            Opcode::Negate => 2,
            Opcode::Add => 3,
            Opcode::Subtract => 4,
            Opcode::Multiply => 5,
            Opcode::Divide => 6,
            Opcode::Mod => 7,
            Opcode::Nil => 8,
            Opcode::True => 9,
            Opcode::False => 10,
            Opcode::Not => 11,
            Opcode::Equal => 12,
            Opcode::Greater => 13,
            Opcode::Less => 14,
            Opcode::LogicalAnd => 15,
            Opcode::LogicalOr => 16,
            Opcode::BitwiseAnd => 17,
            Opcode::BitwiseOr => 18,
            Opcode::Print => 19,
            Opcode::Pop => 20,
            Opcode::DefineGlobal => 21,
            Opcode::GetGlobal => 22,
            Opcode::SetGlobal => 23,
            Opcode::GetLocal => 24,
            Opcode::SetLocal => 25,
            Opcode::JumpIfFalse => 26,
            Opcode::Jump => 27,
            Opcode::Unknown => 28,
        }
    }
}

/// Encoding then decoding gives back every instruction kind.
pub proof fn lemma_decode_encode(op: Opcode)
    ensures
        decode(byte_of(op)) == op,
{
}

/// Decoding then encoding gives back every byte of the table.
pub proof fn lemma_encode_decode(x: u8)
    requires
        x <= LAST_OPCODE_BYTE,
    ensures
        byte_of(decode(x)) == x,
{
}

} // verus!
