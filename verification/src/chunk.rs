//! The bytecode container: an instruction stream, one source line per
//! instruction, and an append-only constant pool.
use vstd::prelude::*;

use crate::value::Value;

verus! {

/// One bytecode instruction.  Only `OpConstant` carries an operand: an
/// index into the owning chunk's constant pool.
#[derive(Debug, Clone, Copy, PartialEq, Eq, Structural)]
pub enum OpCode {
    OpConstant { index: usize },
    OpNil,
    OpTrue,
    OpFalse,
    OpNegate,
    OpReturn,
    OpAdd,
    OpSubtract,
    OpMultiply,
    OpDivide,
    OpNot,
    OpEqual,
    OpGreater,
    OpLess,
}

/// Instructions, their source lines, and the constant pool.
#[derive(Debug)]
pub struct Chunk {
    pub code: Vec<OpCode>,
    pub lines: Vec<usize>,
    pub constants: Vec<Value>,
}

impl Chunk {
    /// Well-formedness: one line per instruction, and every constant
    /// load within the bounds of the pool.
    pub open spec fn wf(&self) -> bool {
        &&& self.code@.len() == self.lines@.len()
        &&& forall|i: int|
            0 <= i < self.code@.len() ==> (#[trigger] self.code@[i] matches OpCode::OpConstant {
                index,
            } ==> index < self.constants@.len())
    }

    pub fn new() -> (c: Self)
        ensures
            c.code@ == Seq::<OpCode>::empty(),
            c.lines@ == Seq::<usize>::empty(),
            c.constants@ == Seq::<Value>::empty(),
            c.wf(),
    {
        Self { code: Vec::new(), lines: Vec::new(), constants: Vec::new() }
    }

    /// Appends one instruction together with its source line.
    pub fn write_chunk(&mut self, op_code: OpCode, line: usize)
        ensures
            final(self).code@ == old(self).code@.push(op_code),
            final(self).lines@ == old(self).lines@.push(line),
            final(self).constants@ == old(self).constants@,
    {
        self.code.push(op_code);
        self.lines.push(line);
    }

    /// Appends a value to the constant pool and returns its index.
    /// Equal values are never deduplicated: each call takes a fresh slot.
    pub fn add_constant(&mut self, value: Value) -> (idx: usize)
        ensures
            final(self).constants@ == old(self).constants@.push(value),
            idx == old(self).constants@.len(),
            final(self).code@ == old(self).code@,
            final(self).lines@ == old(self).lines@,
    {
        let idx = self.constants.len();
        self.constants.push(value);
        idx
    }
}

impl Clone for Chunk {
    fn clone(&self) -> (r: Self)
        ensures
            r.code@ == self.code@,
            r.lines@ == self.lines@,
            r.constants@ == self.constants@,
    {
        Self {
            code: clone_copy_vec(&self.code),
            lines: clone_copy_vec(&self.lines),
            constants: clone_copy_vec(&self.constants),
        }
    }
}

/// An element-by-element copy of a vector of copyable items.
fn clone_copy_vec<T: Copy>(v: &Vec<T>) -> (r: Vec<T>)
    ensures
        r@ == v@,
{
    let mut r: Vec<T> = Vec::new();
    let mut i: usize = 0;
    while i < v.len()
        invariant
            i <= v@.len(),
            r@ == v@.subrange(0, i as int),
        decreases v@.len() - i,
    {
        r.push(v[i]);
        i = i + 1;
    }
    proof {
        assert(r@ =~= v@);
    }
    r
}

/// The constant pool never deduplicates: appending a value and then a
/// second one, even an equal one, yields two distinct indices, and each
/// value sits in its own slot.
pub proof fn lemma_constant_pool_no_dedup(pool: Seq<Value>, v1: Value, v2: Value)
    ensures
        pool.len() != pool.push(v1).len(),
        pool.push(v1).push(v2)[pool.len() as int] == v1,
        pool.push(v1).push(v2)[pool.len() as int + 1] == v2,
{
}

} // verus!
