use vstd::prelude::*;

use crate::op::{decode_op, encode_op, op_size, opcode_of, operand_of, Op};

verus! {

/// The concatenated encodings of a sequence of instructions.
pub open spec fn encode_ops(ops: Seq<Op>) -> Seq<u16>
    decreases ops.len(),
{
    if ops.len() == 0 {
        Seq::empty()
    } else {
        encode_op(ops[0]) + encode_ops(ops.drop_first())
    }
}

/// The full compiled stream: every instruction encoded in order, then the
/// `Eof` terminator word.
pub open spec fn compiled(ops: Seq<Op>) -> Seq<u16> {
    encode_ops(ops) + seq![opcode_of(Op::Eof)]
}

/// Word offset of instruction `i` within the compiled stream: the sum of the
/// encoded sizes of the instructions before it.
pub open spec fn op_offset(ops: Seq<Op>, i: int) -> nat
    decreases i,
{
    if i <= 0 {
        0
    } else {
        op_offset(ops, i - 1) + op_size(ops[i - 1])
    }
}

pub proof fn lemma_encode_push(ops: Seq<Op>, op: Op)
    ensures
        encode_ops(ops.push(op)) == encode_ops(ops) + encode_op(op),
    decreases ops.len(),
{
    if ops.len() == 0 {
        assert(ops.push(op).drop_first() =~= Seq::<Op>::empty());
        assert(ops.push(op)[0] == op);
        assert(encode_ops(ops.push(op)) == encode_op(op) + encode_ops(Seq::<Op>::empty()));
        assert(encode_ops(ops.push(op)) =~= encode_ops(ops) + encode_op(op));
    } else {
        assert(ops.push(op).drop_first() =~= ops.drop_first().push(op));
        assert(ops.push(op)[0] == ops[0]);
        lemma_encode_push(ops.drop_first(), op);
        assert(encode_ops(ops.push(op))
            == encode_op(ops[0]) + (encode_ops(ops.drop_first()) + encode_op(op)));
        assert(encode_ops(ops.push(op)) =~= encode_ops(ops) + encode_op(op));
    }
}

proof fn lemma_offset_shift(ops: Seq<Op>, i: int)
    requires
        1 <= i <= ops.len(),
    ensures
        op_offset(ops, i) == op_size(ops[0]) + op_offset(ops.drop_first(), i - 1),
    decreases i,
{
    let rest = ops.drop_first();
    if i == 1 {
        assert(op_offset(ops, 1) == op_offset(ops, 0) + op_size(ops[0]));
        assert(op_offset(rest, 0) == 0);
    } else {
        lemma_offset_shift(ops, i - 1);
        assert(rest[i - 2] == ops[i - 1]);
        assert(op_offset(ops, i) == op_offset(ops, i - 1) + op_size(ops[i - 1]));
        assert(op_offset(rest, i - 1) == op_offset(rest, i - 2) + op_size(rest[i - 2]));
    }
}

/// The offset just past the last instruction is the length of the encoded
/// stream (without the terminator).
pub proof fn lemma_encode_len(ops: Seq<Op>)
    ensures
        encode_ops(ops).len() == op_offset(ops, ops.len() as int),
    decreases ops.len(),
{
    if ops.len() > 0 {
        lemma_encode_len(ops.drop_first());
        lemma_offset_shift(ops, ops.len() as int);
    }
}

/// Instruction offsets never decrease along the stream.
pub proof fn lemma_offset_mono(ops: Seq<Op>, i: int)
    requires
        0 <= i <= ops.len(),
    ensures
        op_offset(ops, i) <= op_offset(ops, ops.len() as int),
    decreases ops.len() - i,
{
    if i < ops.len() {
        lemma_offset_mono(ops, i + 1);
    }
}

/// Each instruction stands in the compiled stream exactly at its offset: the
/// opcode word there, the operand word (if the instruction carries one) right
/// after it, and the final word of the stream is the `Eof` terminator.
pub proof fn lemma_compiled_op_at(ops: Seq<Op>, i: int)
    requires
        0 <= i < ops.len(),
    ensures
        op_offset(ops, i) + op_size(ops[i]) <= encode_ops(ops).len(),
        compiled(ops)[op_offset(ops, i) as int] == opcode_of(ops[i]),
        operand_of(ops[i]) matches Some(v) ==> compiled(ops)[op_offset(ops, i) + 1 as int] == v,
        compiled(ops).last() == opcode_of(Op::Eof),
    decreases i,
{
    lemma_encode_len(ops);
    lemma_offset_mono(ops, i + 1);
    if i == 0 {
        assert(compiled(ops)[0] == encode_op(ops[0])[0]);
        if operand_of(ops[0]) is Some {
            assert(compiled(ops)[1] == encode_op(ops[0])[1]);
        }
    } else {
        let rest = ops.drop_first();
        lemma_compiled_op_at(rest, i - 1);
        lemma_offset_shift(ops, i);
        lemma_encode_len(rest);
        lemma_offset_mono(rest, i);
        assert(rest[i - 1] == ops[i]);
        let off = op_offset(ops, i) as int;
        let head = op_size(ops[0]) as int;
        assert(compiled(ops)[off] == compiled(rest)[off - head]);
        if operand_of(ops[i]) is Some {
            assert(compiled(ops)[off + 1] == compiled(rest)[off - head + 1]);
        }
    }
}

/// Any word of the compiled stream that sits at an instruction offset decodes
/// back to that instruction, whatever word follows it.
pub proof fn lemma_compiled_decodes(ops: Seq<Op>, i: int, filler: u16)
    requires
        0 <= i < ops.len(),
    ensures
        op_size(ops[i]) == 2 ==> decode_op(
            compiled(ops)[op_offset(ops, i) as int],
            compiled(ops)[op_offset(ops, i) + 1 as int],
        ) == Some(ops[i]),
        op_size(ops[i]) == 1 ==> decode_op(compiled(ops)[op_offset(ops, i) as int], filler)
            == Some(ops[i]),
{
    lemma_compiled_op_at(ops, i);
}

/// Translates instructions to the flat word stream of the stable binary
/// format and appends the `Eof` terminator.
pub fn compile(ops: Vec<Op>) -> (r: Vec<u16>)
    ensures
        r@ == compiled(ops@),
{
    let mut bytecode: Vec<u16> = Vec::new();
    let n = ops.len();
    let mut idx: usize = 0;
    while idx < n
        invariant
            n == ops@.len(),
            idx <= n,
            bytecode@ == encode_ops(ops@.subrange(0, idx as int)),
        decreases n - idx,
    {
        let op = ops[idx];
        bytecode.push(op.opcode());
        if let Some(v) = op.operand() {
            bytecode.push(v);
        }
        proof {
            lemma_encode_push(ops@.subrange(0, idx as int), ops@[idx as int]);
            assert(ops@.subrange(0, idx as int).push(ops@[idx as int])
                =~= ops@.subrange(0, idx as int + 1));
            assert(bytecode@ =~= encode_ops(ops@.subrange(0, idx as int + 1)));
        }
        idx = idx + 1;
    }
    bytecode.push(Op::Eof.opcode());
    proof {
        assert(ops@.subrange(0, n as int) =~= ops@);
        assert(bytecode@ =~= compiled(ops@));
    }
    bytecode
}

} // verus!
