use vstd::prelude::*;
use crate::opcode::{decode, operand_count, Opcode};
use crate::value::{Val, Value};

verus! {

/// Most constants a chunk may use; the compiler reports any constant past them.
pub const MAX_CONSTANTS: usize = 255;

/// A compiled program: instruction bytes, the source line of each byte, and
/// the constant pool that operands index.
pub struct Chunk {
    pub code: Vec<u8>,
    pub lines: Vec<usize>,
    pub constants: Vec<Value>,
}

/// The view of a constant pool.
pub open spec fn pool_view(c: Seq<Value>) -> Seq<Val> {
    c.map_values(|v: Value| v@)
}

impl Chunk {
    /// The line table is aligned with the code.
    pub open spec fn wf(&self) -> bool {
        self.lines@.len() == self.code@.len()
    }

    /// An empty chunk.
    pub fn new() -> (r: Chunk)
        ensures
            r.wf(),
            r.code@.len() == 0,
            r.constants@.len() == 0,
    {
        Chunk { code: Vec::new(), lines: Vec::new(), constants: Vec::new() }
    }

    /// Appends one byte and the line it came from.
    pub fn write(&mut self, byte: u8, line: usize)
        requires
            old(self).wf(),
        ensures
            final(self).wf(),
            final(self).code@ == old(self).code@.push(byte),
            final(self).lines@ == old(self).lines@.push(line),
            final(self).constants@ == old(self).constants@,
    {
        self.code.push(byte);
        self.lines.push(line);
    }

    /// Appends a value to the constant pool and returns its index.
    pub fn add_constant(&mut self, value: Value) -> (r: usize)
        ensures
            final(self).constants@ == old(self).constants@.push(value),
            final(self).code@ == old(self).code@,
            final(self).lines@ == old(self).lines@,
            r == old(self).constants@.len(),
    {
        self.constants.push(value);
        self.constants.len() - 1
    }
}

/// Instructions with a one-byte operand that names a constant-pool entry.
pub open spec fn names_constant(op: Opcode) -> bool {
    op == Opcode::Constant || op == Opcode::DefineGlobal || op == Opcode::GetGlobal || op
        == Opcode::SetGlobal
}

/// From byte `i` on, `code` is a sequence of whole instructions, and every
/// operand that names a constant is below `n`.
pub open spec fn decodes_from(code: Seq<u8>, i: int, n: nat) -> bool
    decreases code.len() - i,
{
    if i < 0 || i > code.len() {
        false
    } else if i == code.len() {
        true
    } else {
        let op = decode(code[i]);
        let w = 1 + operand_count(op);
        if i + w > code.len() {
            false
        } else {
            &&& (names_constant(op) ==> (code[i + 1] as nat) < n)
            &&& decodes_from(code, i + w, n)
        }
    }
}

/// The whole of `code` decodes into instructions whose constant operands are below `n`.
pub open spec fn well_encoded(code: Seq<u8>, n: nat) -> bool {
    decodes_from(code, 0, n)
}

/// A larger pool keeps every operand in range.
pub proof fn lemma_decodes_more_constants(code: Seq<u8>, i: int, n: nat, m: nat)
    requires
        decodes_from(code, i, n),
        n <= m,
    ensures
        decodes_from(code, i, m),
    decreases code.len() - i,
{
    if 0 <= i < code.len() {
        let w = 1 + operand_count(decode(code[i]));
        lemma_decodes_more_constants(code, i + w, n, m);
    }
}

proof fn lemma_decodes_shift(pre: Seq<u8>, extra: Seq<u8>, j: int, n: nat)
    requires
        decodes_from(extra, j, n),
    ensures
        decodes_from(pre + extra, pre.len() + j, n),
    decreases extra.len() - j,
{
    let all = pre + extra;
    if 0 <= j < extra.len() {
        let w = 1 + operand_count(decode(extra[j]));
        assert(all[pre.len() + j] == extra[j]);
        if names_constant(decode(extra[j])) {
            assert(all[pre.len() + j + 1] == extra[j + 1]);
        }
        lemma_decodes_shift(pre, extra, j + w, n);
    }
}

/// Appending whole instructions to whole instructions gives whole instructions.
pub proof fn lemma_decodes_append(code: Seq<u8>, extra: Seq<u8>, i: int, n: nat)
    requires
        decodes_from(code, i, n),
        well_encoded(extra, n),
    ensures
        decodes_from(code + extra, i, n),
    decreases code.len() - i,
{
    let all = code + extra;
    if i == code.len() {
        lemma_decodes_shift(code, extra, 0, n);
    } else {
        let w = 1 + operand_count(decode(code[i]));
        assert(all[i] == code[i]);
        if names_constant(decode(code[i])) {
            assert(all[i + 1] == code[i + 1]);
        }
        lemma_decodes_append(code, extra, i + w, n);
    }
}

/// One instruction without operands is well encoded.
pub proof fn lemma_single_instruction(op: Opcode, n: nat)
    requires
        operand_count(op) == 0,
    ensures
        well_encoded(seq![crate::opcode::byte_of(op)], n),
{
    crate::opcode::lemma_decode_encode(op);
    let s = seq![crate::opcode::byte_of(op)];
    assert(decodes_from(s, 1, n));
}

/// One instruction with a one-byte operand is well encoded when a constant
/// operand is in range.
pub proof fn lemma_operand_instruction(op: Opcode, operand: u8, n: nat)
    requires
        operand_count(op) == 1,
        names_constant(op) ==> (operand as nat) < n,
    ensures
        well_encoded(seq![crate::opcode::byte_of(op), operand], n),
{
    crate::opcode::lemma_decode_encode(op);
    let s = seq![crate::opcode::byte_of(op), operand];
    assert(decodes_from(s, 2, n));
}

} // verus!
