//! Instruction widths and the binary encoding.
//!
//! An instruction encodes as its opcode byte, a mode byte, then one slot per
//! operand. Bit `k` of the mode byte is set when operand `k` is addressed and
//! bit `4 + k` when it is a register. A register slot is its one-byte id; an
//! immediate slot is its 16-bit value, low byte first, except that the byte-wide
//! move keeps only the low byte of an immediate that is not addressed.
use vstd::prelude::*;
use crate::syntax::{Instruction, InstrModel, Opcode, Register, Value, ValueModel, ValueVariant, VariantModel};

verus! {

/// The opcode byte of each operation.
pub open spec fn opcode_code(op: Opcode) -> u8 {
    match op {
        Opcode::Hlt => 0,
        Opcode::Reti => 1,
        Opcode::Jmp => 2,
        Opcode::Lvcd => 3,
        Opcode::Lkbd => 4,
        Opcode::Mov => 5,
        Opcode::MovByte => 6,
        Opcode::Jnz => 7,
        Opcode::Add => 8,
        Opcode::And => 9,
    }
}

/// The id of each register.
pub open spec fn register_id(r: Register) -> u8 {
    match r {
        Register::R0 => 0,
        Register::R1 => 1,
    }
}

/// How many bytes an operand's slot takes; a reference counts as the
/// immediate it becomes.
pub open spec fn slot_width(v: ValueModel, byte_mode: bool) -> nat {
    match v.variant {
        VariantModel::Register(_) => 1,
        _ => if byte_mode && !v.addressed {
            1
        } else {
            2
        },
    }
}

/// How many bytes the operands' slots take together.
pub open spec fn operands_width(vs: Seq<ValueModel>, byte_mode: bool) -> nat
    decreases vs.len(),
{
    if vs.len() == 0 {
        0
    } else {
        operands_width(vs.drop_last(), byte_mode) + slot_width(vs.last(), byte_mode)
    }
}

/// The encoded width of an instruction in bytes.
pub open spec fn instr_width(i: InstrModel) -> nat {
    2 + operands_width(i.operands, i.op == Opcode::MovByte)
}

/// The models of a sequence of operand references.
pub open spec fn refs_view(vs: Seq<&Value>) -> Seq<ValueModel> {
    vs.map_values(|v: &Value| v@)
}

impl Instruction {
    /// The operation, without operands.
    pub fn opcode(&self) -> (r: Opcode)
        ensures
            r == self@.op,
    {
        match self {
            Instruction::Mov(..) => Opcode::Mov,
            Instruction::MovByte(..) => Opcode::MovByte,
            Instruction::Lvcd(..) => Opcode::Lvcd,
            Instruction::Lkbd(..) => Opcode::Lkbd,
            Instruction::Jmp(..) => Opcode::Jmp,
            Instruction::Hlt => Opcode::Hlt,
            Instruction::Jnz(..) => Opcode::Jnz,
            Instruction::Reti => Opcode::Reti,
            Instruction::Add(..) => Opcode::Add,
            Instruction::And(..) => Opcode::And,
        }
    }

    /// The operands, in order.
    pub fn operands(&self) -> (r: Vec<&Value>)
        ensures
            refs_view(r@) == self@.operands,
            r.len() <= 3,
    {
        let r = match self {
            Instruction::Mov(a, b) | Instruction::MovByte(a, b) | Instruction::Jnz(a, b) => vec![a, b],
            Instruction::Lvcd(a) | Instruction::Lkbd(a) | Instruction::Jmp(a) => vec![a],
            Instruction::Hlt | Instruction::Reti => vec![],
            Instruction::Add(a, b, c) | Instruction::And(a, b, c) => vec![a, b, c],
        };
        assert(refs_view(r@) =~= self@.operands);
        r
    }

    /// The number of bytes this instruction encodes to; it depends on the
    /// operation and on each operand's kind and addressing, never on values.
    pub fn width(&self) -> (r: usize)
        ensures
            r == instr_width(self@),
            r <= 8,
    {
        let ops = self.operands();
        let byte_mode = self.opcode() == Opcode::MovByte;
        let ghost vs = refs_view(ops@);
        let mut w: usize = 2;
        let mut i: usize = 0;
        while i < ops.len()
            invariant
                vs == refs_view(ops@),
                vs == self@.operands,
                vs.len() <= 3,
                byte_mode == (self@.op == Opcode::MovByte),
                i <= ops.len(),
                w == 2 + operands_width(vs.take(i as int), byte_mode),
                w <= 2 + 2 * i,
            decreases ops.len() - i,
        {
            assert(vs.take(i + 1).drop_last() =~= vs.take(i as int));
            w = w + value_width(ops[i], byte_mode);
            i = i + 1;
        }
        assert(vs.take(i as int) =~= vs);
        w
    }
}

fn value_width(v: &Value, byte_mode: bool) -> (r: usize)
    ensures
        r == slot_width(v@, byte_mode),
        1 <= r <= 2,
{
    match v.variant {
        ValueVariant::Register(_) => 1,
        _ => if byte_mode && !v.addressed {
            1
        } else {
            2
        },
    }
}

/// Whether every operand is a register or an immediate.
pub open spec fn all_resolved(vs: Seq<ValueModel>) -> bool {
    forall|k: int| 0 <= k < vs.len() ==> !(#[trigger] vs[k].variant is Reference)
}

/// The mode bits of operand number `k`.
pub open spec fn mode_bits(v: ValueModel, k: nat) -> nat {
    let bit: nat = if k == 0 {
        1
    } else if k == 1 {
        2
    } else {
        4
    };
    (if v.addressed {
        bit
    } else {
        0
    }) + (if v.variant is Register {
        16 * bit
    } else {
        0
    })
}

/// The mode byte of an operand list.
pub open spec fn mode_value(vs: Seq<ValueModel>) -> nat
    decreases vs.len(),
{
    if vs.len() == 0 {
        0
    } else {
        mode_value(vs.drop_last()) + mode_bits(vs.last(), (vs.len() - 1) as nat)
    }
}

/// The bytes of one operand's slot.
pub open spec fn slot_bytes(v: ValueModel, byte_mode: bool) -> Seq<u8> {
    match v.variant {
        VariantModel::Register(r) => seq![register_id(r)],
        VariantModel::Immediate(x) => if byte_mode && !v.addressed {
            seq![(x % 256) as u8]
        } else {
            seq![(x % 256) as u8, (x / 256) as u8]
        },
        VariantModel::Reference(_) => Seq::empty(),
    }
}

/// The bytes of the operands' slots, in order.
pub open spec fn operands_bytes(vs: Seq<ValueModel>, byte_mode: bool) -> Seq<u8>
    decreases vs.len(),
{
    if vs.len() == 0 {
        Seq::empty()
    } else {
        operands_bytes(vs.drop_last(), byte_mode) + slot_bytes(vs.last(), byte_mode)
    }
}

/// The encoding of an instruction whose operands are all resolved.
pub open spec fn encoding(i: InstrModel) -> Seq<u8> {
    seq![opcode_code(i.op), mode_value(i.operands) as u8] + operands_bytes(
        i.operands,
        i.op == Opcode::MovByte,
    )
}

fn opcode_byte(op: Opcode) -> (r: u8)
    ensures
        r == opcode_code(op),
{
    match op {
        Opcode::Hlt => 0,
        Opcode::Reti => 1,
        Opcode::Jmp => 2,
        Opcode::Lvcd => 3,
        Opcode::Lkbd => 4,
        Opcode::Mov => 5,
        Opcode::MovByte => 6,
        Opcode::Jnz => 7,
        Opcode::Add => 8,
        Opcode::And => 9,
    }
}

/// Appends the encoding of `op` applied to resolved operands to `out`.
pub fn encode_into(op: Opcode, vs: &Vec<Value>, out: &mut Vec<u8>)
    requires
        vs.len() <= 3,
        all_resolved(crate::lexer::values_view(vs@)),
    ensures
        final(out)@ == old(out)@ + encoding(
            InstrModel { op, operands: crate::lexer::values_view(vs@) },
        ),
{
    let ghost ms = crate::lexer::values_view(vs@);
    let byte_mode = op == Opcode::MovByte;
    let mut mode: u8 = 0;
    let mut i: usize = 0;
    while i < vs.len()
        invariant
            ms == crate::lexer::values_view(vs@),
            vs.len() <= 3,
            i <= vs.len(),
            mode as nat == mode_value(ms.take(i as int)),
            mode <= 17 * (if i == 0 { 0nat } else if i == 1 { 1 } else if i == 2 { 3 } else { 7 }),
        decreases vs.len() - i,
    {
        assert(ms.take(i + 1).drop_last() =~= ms.take(i as int));
        assert(ms[i as int] == vs@[i as int]@);
        let v = &vs[i];
        let bit: u8 = if i == 0 {
            1
        } else if i == 1 {
            2
        } else {
            4
        };
        if v.addressed {
            mode = mode + bit;
        }
        if let ValueVariant::Register(_) = v.variant {
            mode = mode + 16 * bit;
        }
        i = i + 1;
    }
    assert(ms.take(i as int) =~= ms);
    let ghost start = old(out)@;
    out.push(opcode_byte(op));
    out.push(mode);
    assert(out@ =~= start + seq![opcode_code(op), mode_value(ms) as u8] + operands_bytes(ms.take(0), byte_mode));
    let mut i: usize = 0;
    while i < vs.len()
        invariant
            ms == crate::lexer::values_view(vs@),
            all_resolved(ms),
            i <= vs.len(),
            byte_mode == (op == Opcode::MovByte),
            out@ == start + seq![opcode_code(op), mode_value(ms) as u8] + operands_bytes(ms.take(i as int), byte_mode),
        decreases vs.len() - i,
    {
        assert(ms.take(i + 1).drop_last() =~= ms.take(i as int));
        assert(ms[i as int] == vs@[i as int]@);
        let v = &vs[i];
        match v.variant {
            ValueVariant::Register(r) => {
                out.push(register_byte(r));
            },
            ValueVariant::Immediate(x) => {
                out.push((x % 256) as u8);
                if !(byte_mode && !v.addressed) {
                    out.push((x / 256) as u8);
                }
            },
            ValueVariant::Reference { .. } => {
                assert(!(ms[i as int].variant is Reference));
            },
        }
        assert(out@ =~= start + seq![opcode_code(op), mode_value(ms) as u8] + operands_bytes(ms.take(i + 1), byte_mode));
        i = i + 1;
    }
    assert(ms.take(i as int) =~= ms);
}

fn register_byte(r: Register) -> (b: u8)
    ensures
        b == register_id(r),
{
    match r {
        Register::R0 => 0,
        Register::R1 => 1,
    }
}

/// A resolved instruction encodes to exactly as many bytes as its width.
pub proof fn lemma_encoding_len(i: InstrModel)
    requires
        all_resolved(i.operands),
    ensures
        encoding(i).len() == instr_width(i),
{
    lemma_operands_bytes_len(i.operands, i.op == Opcode::MovByte);
}

proof fn lemma_operands_bytes_len(vs: Seq<ValueModel>, byte_mode: bool)
    requires
        all_resolved(vs),
    ensures
        operands_bytes(vs, byte_mode).len() == operands_width(vs, byte_mode),
    decreases vs.len(),
{
    if vs.len() > 0 {
        assert(all_resolved(vs.drop_last())) by {
            assert forall|k: int| 0 <= k < vs.drop_last().len() implies !(#[trigger] vs.drop_last()[k].variant is Reference) by {
                assert(vs.drop_last()[k] == vs[k]);
            }
        }
        lemma_operands_bytes_len(vs.drop_last(), byte_mode);
        assert(!(vs[vs.len() - 1].variant is Reference));
    }
}

} // verus!
