use vstd::prelude::*;

use crate::abi::{AbiType, AbiVisibility, Sign};
use crate::acir::{acir_bool_gate, acir_quotient_split, acir_range_opcode, acir_split_link};
use crate::evaluator::{param_step, EvaluatorModel};
use crate::layout::{element_bits, fill, Layout};
use crate::witness::Witness;

verus! {

/// `n` new witnesses after index `start`: `start + 1, ..., start + n`.
pub open spec fn fresh_run(start: int, n: nat) -> Seq<Witness> {
    Seq::new(n, |i: int| Witness((start + i + 1) as u32))
}

/// acvm's `RANGE` call of `bits` bits on each of the witnesses `start + 1, ..., start + n`,
/// in order.
pub open spec fn range_run(start: int, n: nat, bits: u32) -> Seq<acvm::acir::circuit::Opcode> {
    Seq::new(n, |i: int| acir_range_opcode((start + i + 1) as u32, bits))
}

/// Filling an array whose elements are integers of an even width that is not refused: each
/// element gets the next witness and, right after, the `RANGE` call on that very witness
/// with that very width.
proof fn lemma_fill_even(st: Layout, k: nat, elem: AbiType, bits: u32)
    requires
        !st.failed,
        element_bits(elem) == Some(bits),
        bits % 2 == 0,
        bits != 254,
    ensures
        fill(st, k, elem).0 == (Layout {
            next: st.next + k,
            ops: st.ops + range_run(st.next, k, bits),
            ..st
        }),
        fill(st, k, elem).1 == fresh_run(st.next, k),
    decreases k,
{
    if k == 0 {
        assert(st.ops + range_run(st.next, 0, bits) =~= st.ops);
        assert(fresh_run(st.next, 0) =~= Seq::<Witness>::empty());
    } else {
        let k1 = (k - 1) as nat;
        lemma_fill_even(st, k1, elem, bits);
        assert(st.ops + range_run(st.next, k1, bits) + seq![
            acir_range_opcode((st.next + k1 + 1) as u32, bits),
        ] =~= st.ops + range_run(st.next, k, bits));
        assert(fresh_run(st.next, k1).push(Witness((st.next + k1 + 1) as u32)) =~= fresh_run(
            st.next,
            k,
        ));
    }
}

/// An integer parameter of an even width `width` (short of the field's 254 bits), signed or
/// not, gets one new witness, the next index, and exactly one opcode: acvm's `RANGE` call on
/// that witness with `width` bits.
pub proof fn lemma_even_integer_parameter(
    m: EvaluatorModel,
    name: Seq<char>,
    sign: Sign,
    width: u32,
    visibility: AbiVisibility,
)
    requires
        width % 2 == 0,
        width != 254,
    ensures
        ({
            let m2 = param_step(m, name, AbiType::Integer { sign, width }, visibility);
            let w = (m.current_witness_index + 1) as u32;
            &&& m2.current_witness_index == m.current_witness_index + 1
            &&& m2.param_witnesses[name] == seq![Witness(w)]
            &&& m2.opcodes == m.opcodes.push(acir_range_opcode(w, width))
        }),
{
    let m2 = param_step(m, name, AbiType::Integer { sign, width }, visibility);
    let w = (m.current_witness_index + 1) as u32;
    assert(m2.opcodes =~= m.opcodes.push(acir_range_opcode(w, width)));
}

/// An integer parameter of an odd width `width` other than 1 and 255 is split: it gets the
/// next witness `w`, then `w + 1` for the `width - 1` low bits and `w + 2` for the top bit,
/// and four opcodes: the split of `w` by `2^(width - 1)`, the `RANGE` call of `width - 1`
/// bits on `w + 1`, the boolean gate on `w + 2`, and the opcode that puts `w` back together.
pub proof fn lemma_odd_integer_parameter(
    m: EvaluatorModel,
    name: Seq<char>,
    sign: Sign,
    width: u32,
    visibility: AbiVisibility,
)
    requires
        width % 2 == 1,
        width != 1,
        width != 255,
    ensures
        ({
            let m2 = param_step(m, name, AbiType::Integer { sign, width }, visibility);
            let w = (m.current_witness_index + 1) as u32;
            let r = (m.current_witness_index + 2) as u32;
            let b = (m.current_witness_index + 3) as u32;
            let low = (width - 1) as u32;
            &&& m2.current_witness_index == m.current_witness_index + 3
            &&& m2.param_witnesses[name] == seq![Witness(w)]
            &&& m2.opcodes == m.opcodes + seq![
                acir_quotient_split(w, r, b, low),
                acir_range_opcode(r, low),
                acir_bool_gate(b),
                acir_split_link(w, r, b, low),
            ]
        }),
{
    let m2 = param_step(m, name, AbiType::Integer { sign, width }, visibility);
    let w = (m.current_witness_index + 1) as u32;
    let r = (m.current_witness_index + 2) as u32;
    let b = (m.current_witness_index + 3) as u32;
    let low = (width - 1) as u32;
    assert(m2.opcodes =~= m.opcodes + seq![
        acir_quotient_split(w, r, b, low),
        acir_range_opcode(r, low),
        acir_bool_gate(b),
        acir_split_link(w, r, b, low),
    ]);
}

/// A boolean parameter gets one new witness, the next index, and exactly one opcode: the
/// gate that holds of 0 and 1 alone, on that witness.
pub proof fn lemma_boolean_parameter(
    m: EvaluatorModel,
    name: Seq<char>,
    visibility: AbiVisibility,
)
    ensures
        ({
            let m2 = param_step(m, name, AbiType::Boolean, visibility);
            let w = (m.current_witness_index + 1) as u32;
            &&& m2.current_witness_index == m.current_witness_index + 1
            &&& m2.param_witnesses[name] == seq![Witness(w)]
            &&& m2.opcodes == m.opcodes.push(acir_bool_gate(w))
        }),
{
    let m2 = param_step(m, name, AbiType::Boolean, visibility);
    assert(m2.opcodes =~= m.opcodes.push(acir_bool_gate((m.current_witness_index + 1) as u32)));
}

/// The sign of an integer makes no difference to how it is taken in: a signed parameter
/// gets the same witnesses and constraints as an unsigned one of the same width, alone or
/// as the elements of an array.
pub proof fn lemma_sign_is_ignored(
    m: EvaluatorModel,
    name: Seq<char>,
    sign: Sign,
    width: u32,
    length: u64,
    visibility: AbiVisibility,
)
    ensures
        param_step(m, name, AbiType::Integer { sign, width }, visibility) == param_step(
            m,
            name,
            AbiType::Integer { sign: Sign::Unsigned, width },
            visibility,
        ),
        param_step(
            m,
            name,
            AbiType::Array { length, typ: Box::new(AbiType::Integer { sign, width }) },
            visibility,
        ) == param_step(
            m,
            name,
            AbiType::Array {
                length,
                typ: Box::new(AbiType::Integer { sign: Sign::Unsigned, width }),
            },
            visibility,
        ),
{
    lemma_fill_sign(
        crate::evaluator::layout_of(m, Map::empty()),
        length as nat,
        sign,
        width,
    );
}

proof fn lemma_fill_sign(st: Layout, k: nat, sign: Sign, width: u32)
    ensures
        fill(st, k, AbiType::Integer { sign, width }) == fill(
            st,
            k,
            AbiType::Integer { sign: Sign::Unsigned, width },
        ),
    decreases k,
{
    if k > 0 {
        lemma_fill_sign(st, (k - 1) as nat, sign, width);
    }
}

/// An array of `length` integers of an even width `width` (short of the field's 254 bits)
/// gets the next `length` witnesses, in order, and after them exactly one opcode per
/// element: the `RANGE` call of `width` bits on that element's own witness.
pub proof fn lemma_integer_array_parameter(
    m: EvaluatorModel,
    name: Seq<char>,
    length: u64,
    sign: Sign,
    width: u32,
    visibility: AbiVisibility,
)
    requires
        width % 2 == 0,
        width != 254,
    ensures
        ({
            let t = AbiType::Array { length, typ: Box::new(AbiType::Integer { sign, width }) };
            let m2 = param_step(m, name, t, visibility);
            &&& m2.current_witness_index == m.current_witness_index + length
            &&& m2.param_witnesses[name] == fresh_run(m.current_witness_index, length as nat)
            &&& m2.opcodes == m.opcodes + range_run(
                m.current_witness_index,
                length as nat,
                width,
            )
        }),
{
    lemma_fill_even(
        crate::evaluator::layout_of(m, Map::empty()),
        length as nat,
        AbiType::Integer { sign, width },
        width,
    );
}

/// A string parameter of `length` characters gets the next `length` witnesses, in order,
/// each constrained as an unsigned byte: the `RANGE` call of 8 bits on that character's own
/// witness.
pub proof fn lemma_string_parameter(
    m: EvaluatorModel,
    name: Seq<char>,
    length: u64,
    visibility: AbiVisibility,
)
    ensures
        ({
            let m2 = param_step(m, name, AbiType::String { length }, visibility);
            &&& m2.current_witness_index == m.current_witness_index + length
            &&& m2.param_witnesses[name] == fresh_run(m.current_witness_index, length as nat)
            &&& m2.opcodes == m.opcodes + range_run(m.current_witness_index, length as nat, 8)
        }),
{
    lemma_fill_even(
        crate::evaluator::layout_of(m, Map::empty()),
        length as nat,
        crate::layout::string_element(),
        8,
    );
}

} // verus!
