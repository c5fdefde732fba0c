use vstd::prelude::*;

use crate::value::Value;

verus! {

/// One element of a chunk's instruction sequence: an instruction proper
/// (`OpReturn`, `OpConstant`), or the operand slot that follows an
/// `OpConstant` and carries its constant-pool index.
#[derive(Clone, Copy, PartialEq, Eq, Structural, Debug)]
pub enum OpCode {
    OpReturn,
    OpConstant,
    ConstantIdx(usize),
}

/// The instruction sequence is a concatenation of well-formed units: a bare
/// `OpReturn`, or an `OpConstant` immediately followed by an operand slot
/// whose pool index is in bounds. An operand slot never stands on its own.
pub open spec fn wf_code(code: Seq<OpCode>, nconst: int) -> bool
    decreases code.len(),
{
    if code.len() == 0 {
        true
    } else if code[0] is OpReturn {
        wf_code(code.skip(1), nconst)
    } else if code[0] is OpConstant {
        code.len() >= 2 && (code[1] matches OpCode::ConstantIdx(i) && (i as int) < nconst)
            && wf_code(code.skip(2), nconst)
    } else {
        false
    }
}

/// A well-formed prefix stays well-formed when a whole unit is appended.
pub proof fn lemma_wf_code_append(code: Seq<OpCode>, nconst: int, unit: Seq<OpCode>)
    requires
        wf_code(code, nconst),
        wf_code(unit, nconst),
    ensures
        wf_code(code + unit, nconst),
    decreases code.len(),
{
    if code.len() == 0 {
        assert(code + unit =~= unit);
    } else if code[0] is OpReturn {
        lemma_wf_code_append(code.skip(1), nconst, unit);
        assert((code + unit).skip(1) =~= code.skip(1) + unit);
    } else {
        lemma_wf_code_append(code.skip(2), nconst, unit);
        assert((code + unit).skip(2) =~= code.skip(2) + unit);
    }
}

/// Growing the constant pool never invalidates existing operand slots.
pub proof fn lemma_wf_code_mono(code: Seq<OpCode>, nconst: int, larger: int)
    requires
        wf_code(code, nconst),
        nconst <= larger,
    ensures
        wf_code(code, larger),
    decreases code.len(),
{
    if code.len() != 0 {
        if code[0] is OpReturn {
            lemma_wf_code_mono(code.skip(1), nconst, larger);
        } else {
            lemma_wf_code_mono(code.skip(2), nconst, larger);
        }
    }
}

/// One compiled unit: an append-only instruction sequence plus the constant
/// pool its operand slots index into.
pub struct Chunk {
    pub code: Vec<OpCode>,
    pub constants: Vec<Value>,
}

impl Chunk {
    /// Every operand slot is owned by a preceding `OpConstant` and indexes
    /// into the pool: the invariant the builder methods preserve.
    pub open spec fn wf(&self) -> bool {
        wf_code(self.code@, self.constants@.len() as int)
    }

    /// The instruction sequence ends with an `OpConstant` still awaiting
    /// its operand slot, and is otherwise well-formed.
    pub open spec fn pending_operand(&self) -> bool {
        self.code@.len() > 0 && self.code@.last() is OpConstant && wf_code(
            self.code@.drop_last(),
            self.constants@.len() as int,
        )
    }

    pub fn new() -> (c: Self)
        ensures
            c.code@ == Seq::<OpCode>::empty(),
            c.constants@ == Seq::<Value>::empty(),
            c.wf(),
    {
        Chunk { code: Vec::new(), constants: Vec::new() }
    }

    /// Append a bare instruction. Only `OpReturn` has no operand, so only
    /// it may be appended this way; anything else would corrupt the
    /// pairing invariant.
    pub fn push_op(&mut self, op: OpCode)
        requires
            old(self).wf(),
            op is OpReturn,
        ensures
            final(self).code@ == old(self).code@.push(op),
            final(self).constants@ == old(self).constants@,
            final(self).wf(),
    {
        self.code.push(op);
        proof {
            let n = self.constants@.len() as int;
            assert(wf_code(seq![op].skip(1), n) && seq![op].skip(1) =~= Seq::<OpCode>::empty());
            assert(wf_code(seq![op], n));
            lemma_wf_code_append(old(self).code@, n, seq![op]);
            assert(self.code@ =~= old(self).code@ + seq![op]);
        }
    }

    /// Append `v` to the constant pool and the operand slot holding its new
    /// index to the instruction sequence, completing the `OpConstant` that
    /// was just appended; the index is returned.
    pub fn add_constant(&mut self, v: Value) -> (idx: usize)
        requires
            old(self).pending_operand(),
            old(self).constants@.len() < usize::MAX,
        ensures
            idx as int == old(self).constants@.len(),
            final(self).constants@ == old(self).constants@.push(v),
            final(self).code@ == old(self).code@.push(OpCode::ConstantIdx(idx)),
            final(self).wf(),
    {
        let idx = self.constants.len();
        self.constants.push(v);
        self.code.push(OpCode::ConstantIdx(idx));
        proof {
            let n = idx as int;
            let unit = seq![OpCode::OpConstant, OpCode::ConstantIdx(idx)];
            assert(wf_code(unit.skip(2), n + 1) && unit.skip(2) =~= Seq::<OpCode>::empty());
            assert(wf_code(unit, n + 1));
            lemma_wf_code_mono(old(self).code@.drop_last(), n, n + 1);
            lemma_wf_code_append(old(self).code@.drop_last(), n + 1, unit);
            assert(self.code@ =~= old(self).code@.drop_last() + unit);
        }
        idx
    }

    /// Append a complete constant-load: the `OpConstant` instruction, the
    /// value in the pool, and the operand slot carrying the new index.
    pub fn push_constant(&mut self, v: Value)
        requires
            old(self).wf(),
            old(self).constants@.len() < usize::MAX,
        ensures
            final(self).code@ == old(self).code@ + seq![
                OpCode::OpConstant,
                OpCode::ConstantIdx(old(self).constants@.len() as usize),
            ],
            final(self).constants@ == old(self).constants@.push(v),
            final(self).wf(),
    {
        self.code.push(OpCode::OpConstant);
        proof {
            assert(self.code@.drop_last() =~= old(self).code@);
        }
        self.add_constant(v);
        proof {
            assert(self.code@ =~= old(self).code@ + seq![
                OpCode::OpConstant,
                OpCode::ConstantIdx(old(self).constants@.len() as usize),
            ]);
        }
    }

    /// Given the offset of an `OpConstant`, read the following operand slot
    /// and return the pooled value it indexes.
    pub fn get_constant(&self, offset: usize) -> (v: Value)
        requires
            offset + 1 < self.code@.len(),
            self.code@[offset + 1] matches OpCode::ConstantIdx(i) && (i as int)
                < self.constants@.len(),
        ensures
            self.code@[offset + 1] matches OpCode::ConstantIdx(i) ==> v == self.constants@[i as int],
    {
        let n = self.code.len();
        proof {
            assert(offset + 1 < n);
        }
        let idx = match self.code[offset + 1] {
            OpCode::ConstantIdx(x) => x,
            _ => unreached(),
        };
        self.constants[idx]
    }
}

} // verus!
