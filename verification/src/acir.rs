use vstd::prelude::*;

use crate::witness::{indices, strictly_increasing, Witness};

verus! {

#[verifier::external_type_specification]
#[verifier::external_body]
pub struct ExAcirOpcode(acvm::acir::circuit::Opcode);

#[verifier::external_type_specification]
#[verifier::external_body]
pub struct ExExpression(acvm::acir::native_types::Expression);

#[verifier::external_type_specification]
#[verifier::external_body]
pub struct ExCircuit(acvm::acir::circuit::Circuit);

#[verifier::external_type_specification]
#[verifier::external_body]
pub struct ExCompileError(acvm::compiler::CompileError);

/// acvm's opcode that constrains the value of witness `witness` to `num_bits` bits.
pub uninterp spec fn acir_range_opcode(witness: u32, num_bits: u32) -> acvm::acir::circuit::Opcode;

/// acvm's circuit with the given highest witness index, opcodes, public parameter
/// indices and return value indices.
pub uninterp spec fn acir_circuit(
    current_witness_index: u32,
    opcodes: Seq<acvm::acir::circuit::Opcode>,
    public_parameters: Seq<u32>,
    return_values: Seq<u32>,
) -> acvm::acir::circuit::Circuit;

/// Builds acvm's `Opcode::BlackBoxFuncCall` of the `RANGE` black box function with the
/// single input `(witness, num_bits)` and no output. The result is a plain value built from
/// the two arguments alone, which the clause names.
#[verifier::external_body]
pub(crate) fn range_opcode(witness: Witness, num_bits: u32) -> (op: acvm::acir::circuit::Opcode)
    ensures
        op == acir_range_opcode(witness.0, num_bits),
{
    acvm::acir::circuit::Opcode::BlackBoxFuncCall(
        acvm::acir::circuit::opcodes::BlackBoxFuncCall {
            name: acvm::acir::BlackBoxFunc::RANGE,
            inputs: vec![
                acvm::acir::circuit::opcodes::FunctionInput {
                    witness: acvm::acir::native_types::Witness(witness.0),
                    num_bits,
                },
            ],
            outputs: vec![],
        },
    )
}

/// The number of bits of acvm's field (the BN254 scalar field): a value of that many bits
/// is any field element.
pub open spec fn field_bits() -> u32 {
    254
}

/// acir_field's `FieldElement::max_num_bits`: the bit size of the field's modulus, 254 for
/// the BN254 field that acvm selects by default.
#[verifier::external_body]
pub(crate) fn max_num_bits() -> (r: u32)
    ensures
        r == field_bits(),
{
    acvm::FieldElement::max_num_bits()
}

/// acvm's arithmetic opcode `w * (w - 1) = 0` on witness `witness`, which holds of 0 and 1
/// alone.
pub uninterp spec fn acir_bool_gate(witness: u32) -> acvm::acir::circuit::Opcode;

/// Multiplies `Expression::from(w)` by `Expression::from(w) - 1` with acvm's
/// `impl Mul<&Expression> for &Expression` (both factors are linear, so it does not panic)
/// and makes an `Opcode::Arithmetic` of the product: the same witness always gives the same
/// opcode.
#[verifier::external_body]
pub(crate) fn bool_gate(witness: Witness) -> (op: acvm::acir::circuit::Opcode)
    ensures
        op == acir_bool_gate(witness.0),
{
    let x = acvm::acir::native_types::Expression::from(acvm::acir::native_types::Witness(witness.0));
    let x_minus_one = x.clone() - acvm::FieldElement::one();
    acvm::acir::circuit::Opcode::Arithmetic(&x * &x_minus_one)
}

/// acvm's `Quotient` directive that splits the value of witness `witness` by `2^low_bits`:
/// the quotient goes to witness `top`, the remainder to witness `remainder`.
pub uninterp spec fn acir_quotient_split(
    witness: u32,
    remainder: u32,
    top: u32,
    low_bits: u32,
) -> acvm::acir::circuit::Opcode;

/// Builds acvm's `Directive::Quotient` with `a` the witness `witness`, `b` the constant
/// `2^low_bits` (acir_field's `pow` of 2), `q` the witness `top`, `r` the witness `remainder`
/// and no predicate: a value built from the four arguments alone.
#[verifier::external_body]
pub(crate) fn quotient_split(
    witness: Witness,
    remainder: Witness,
    top: Witness,
    low_bits: u32,
) -> (op: acvm::acir::circuit::Opcode)
    ensures
        op == acir_quotient_split(witness.0, remainder.0, top.0, low_bits),
{
    let exp = acvm::FieldElement::from(2_i128).pow(&acvm::FieldElement::from(low_bits as i128));
    acvm::acir::circuit::Opcode::Directive(acvm::acir::circuit::directives::Directive::Quotient {
        a: acvm::acir::native_types::Expression::from(acvm::acir::native_types::Witness(witness.0)),
        b: acvm::acir::native_types::Expression::from_field(exp),
        q: acvm::acir::native_types::Witness(top.0),
        r: acvm::acir::native_types::Witness(remainder.0),
        predicate: None,
    })
}

/// acvm's arithmetic opcode `remainder + 2^low_bits * top - witness = 0`.
pub uninterp spec fn acir_split_link(
    witness: u32,
    remainder: u32,
    top: u32,
    low_bits: u32,
) -> acvm::acir::circuit::Opcode;

/// Builds `remainder + 2^low_bits * top - witness` with acvm's `Expression::add_mul` (twice,
/// from the expressions of the three witnesses) and makes an `Opcode::Arithmetic` of it: a
/// value built from the four arguments alone.
#[verifier::external_body]
pub(crate) fn split_link(
    witness: Witness,
    remainder: Witness,
    top: Witness,
    low_bits: u32,
) -> (op: acvm::acir::circuit::Opcode)
    ensures
        op == acir_split_link(witness.0, remainder.0, top.0, low_bits),
{
    let exp = acvm::FieldElement::from(2_i128).pow(&acvm::FieldElement::from(low_bits as i128));
    let r = acvm::acir::native_types::Expression::from(acvm::acir::native_types::Witness(remainder.0));
    let b = acvm::acir::native_types::Expression::from(acvm::acir::native_types::Witness(top.0));
    let w = acvm::acir::native_types::Expression::from(acvm::acir::native_types::Witness(witness.0));
    acvm::acir::circuit::Opcode::Arithmetic(r.add_mul(exp, &b).add_mul(-acvm::FieldElement::one(), &w))
}

/// acvm's arithmetic opcode constraining `gate` minus witness `witness` to zero:
/// `Opcode::Arithmetic(&gate - Witness(witness))`.
pub uninterp spec fn acir_link(gate: acvm::acir::native_types::Expression, witness: u32) -> acvm::acir::circuit::Opcode;

/// Subtracts a witness from an expression with acvm's `impl Sub<Witness> for &Expression`
/// (`gate + (-1) * witness`) and makes an `Opcode::Arithmetic` of the difference: the same
/// gate and witness always give the same opcode.
#[verifier::external_body]
pub(crate) fn arithmetic_link(
    gate: &acvm::acir::native_types::Expression,
    witness: Witness,
) -> (op: acvm::acir::circuit::Opcode)
    ensures
        op == acir_link(*gate, witness.0),
{
    acvm::acir::circuit::Opcode::Arithmetic(gate - acvm::acir::native_types::Witness(witness.0))
}

/// Builds acvm's `Circuit` struct from its four fields, each witness index converted to
/// acvm's `Witness` and each index list collected into the `BTreeSet` of a `PublicInputs`.
/// Both lists are strictly increasing, so collecting keeps every element in its place.
#[verifier::external_body]
pub(crate) fn make_circuit(
    current_witness_index: u32,
    opcodes: Vec<acvm::acir::circuit::Opcode>,
    public_parameters: Vec<Witness>,
    return_values: Vec<Witness>,
) -> (c: acvm::acir::circuit::Circuit)
    requires
        strictly_increasing(indices(public_parameters@)),
        strictly_increasing(indices(return_values@)),
    ensures
        c == acir_circuit(
            current_witness_index,
            opcodes@,
            indices(public_parameters@),
            indices(return_values@),
        ),
{
    acvm::acir::circuit::Circuit {
        current_witness_index,
        opcodes,
        public_parameters: acvm::acir::circuit::PublicInputs(
            public_parameters.iter().map(|w| acvm::acir::native_types::Witness(w.0)).collect(),
        ),
        return_values: acvm::acir::circuit::PublicInputs(
            return_values.iter().map(|w| acvm::acir::native_types::Witness(w.0)).collect(),
        ),
    }
}

/// The opcodes of acvm's circuit, in order.
pub uninterp spec fn acir_opcodes(circuit: acvm::acir::circuit::Circuit) -> Seq<
    acvm::acir::circuit::Opcode,
>;

/// Reads the `opcodes` field of acvm's `Circuit`.
#[verifier::external_body]
pub(crate) fn circuit_opcodes(circuit: &acvm::acir::circuit::Circuit) -> (r: &Vec<
    acvm::acir::circuit::Opcode,
>)
    ensures
        r@ == acir_opcodes(*circuit),
{
    &circuit.opcodes
}

/// Of an opcode that is acvm's `Directive::PermutationSort`: its tuple size and its inputs
/// (one list of expressions per tuple); of any other opcode, nothing.
pub uninterp spec fn acir_sort_directive(op: acvm::acir::circuit::Opcode) -> Option<
    (u32, Seq<Vec<acvm::acir::native_types::Expression>>),
>;

/// Tells acvm's `Directive::PermutationSort` opcode from the others, and hands out its
/// `tuple` and `inputs` fields.
#[verifier::external_body]
pub(crate) fn sort_directive(op: &acvm::acir::circuit::Opcode) -> (r: Option<
    (u32, &Vec<Vec<acvm::acir::native_types::Expression>>),
>)
    ensures
        r is None <==> acir_sort_directive(*op) is None,
        r matches Some(p) ==> acir_sort_directive(*op) == Some((p.0, p.1@)),
{
    match op {
        acvm::acir::circuit::Opcode::Directive(
            acvm::acir::circuit::directives::Directive::PermutationSort { inputs, tuple, .. },
        ) => Some((*tuple, inputs)),
        _ => None,
    }
}

/// acvm writes an opcode without panicking: a permutation-sort directive has `tuple`
/// expressions in each of its inputs (its writer reads that many of each).
pub open spec fn opcode_writable(op: acvm::acir::circuit::Opcode) -> bool {
    match acir_sort_directive(op) {
        Some(sort) => sort_inputs_fit(sort.0, sort.1),
        None => true,
    }
}

/// Each input of a permutation-sort directive has at least `tuple` expressions.
pub open spec fn sort_inputs_fit(
    tuple: u32,
    inputs: Seq<Vec<acvm::acir::native_types::Expression>>,
) -> bool {
    forall|i: int| 0 <= i < inputs.len() ==> tuple <= (#[trigger] inputs[i])@.len()
}

/// acvm writes (serializes) the circuit without panicking: each of its opcodes can be written.
pub open spec fn circuit_writable(circuit: acvm::acir::circuit::Circuit) -> bool {
    forall|i: int|
        0 <= i < acir_opcodes(circuit).len() ==> opcode_writable(#[trigger] acir_opcodes(circuit)[i])
}

/// acvm's hash of a circuit: the SHA-256 digest of the circuit's serialization.
pub uninterp spec fn acir_hash(circuit: acvm::acir::circuit::Circuit) -> Seq<u8>;

/// Calls acvm's `hash_constraint_system`: the SHA-256 digest (32 bytes) of the circuit's
/// serialization, which depends on the circuit alone and which the clause names. The
/// serialization indexes the inputs of a permutation-sort directive up to its tuple size,
/// so the circuit must be writable.
#[verifier::external_body]
pub(crate) fn hash_constraint_system(circuit: &acvm::acir::circuit::Circuit) -> (h: Vec<u8>)
    requires
        circuit_writable(*circuit),
    ensures
        h@ == acir_hash(*circuit),
        h@.len() == 32,
{
    #[allow(deprecated)]
    let digest = acvm::hash_constraint_system(circuit);
    digest.to_vec()
}

} // verus!
