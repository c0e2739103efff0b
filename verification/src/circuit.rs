use vstd::prelude::*;
use vstd::string::StringExecFns;

use crate::abi::{Abi, AbiParameter, AbiType};
use crate::abi_witnesses::{
    distinct_names, lemma_abi_witness_count, lemma_fold_in_use, lemma_fold_names,
    lemma_fold_public, param_names, params_refused, public_union, total_witness_count,
};
use crate::acir::acir_circuit;
use crate::evaluator::{initial_model, param_step, params_fold, parsed_abi, Evaluator, EvaluatorModel};
use crate::layout::{distinct_values, values_within};
use crate::witness::{indices, lemma_sorted_indices_of, sorted_indices};
use crate::acir::{
    acir_hash, acir_opcodes, acir_sort_directive, circuit_opcodes, circuit_writable, hash_constraint_system,
    opcode_writable, sort_directive, sort_inputs_fit,
};
use crate::errors::RuntimeErrorKind;
use crate::hex::{encode_hex_artifact, hex_encode};

verus! {

/// The result of compiling a program, given what acvm's compiler made of its circuit:
/// the optimized circuit with the ABI, or the error that a failed compilation is reported as.
pub fn finish_circuit(
    compiled: Result<acvm::acir::circuit::Circuit, acvm::compiler::CompileError>,
    abi: Abi,
) -> (r: Result<(acvm::acir::circuit::Circuit, Abi), RuntimeErrorKind>)
    ensures
        compiled is Ok <==> r is Ok,
        compiled matches Ok(c) ==> r == Ok::<(acvm::acir::circuit::Circuit, Abi), RuntimeErrorKind>(
            (c, abi),
        ),
        r matches Err(e) ==> (e matches RuntimeErrorKind::Spanless(message) && message@
            == "produced an acvm compile error"@),
{
    match compiled {
        Ok(circuit) => Ok((circuit, abi)),
        Err(_) => Err(RuntimeErrorKind::Spanless(String::from_str("produced an acvm compile error"))),
    }
}

/// Whether acvm can write (and so hash) the circuit: each permutation-sort directive has as
/// many expressions in each input as its tuple size.
pub fn is_writable(circuit: &acvm::acir::circuit::Circuit) -> (r: bool)
    ensures
        r == circuit_writable(*circuit),
{
    let opcodes = circuit_opcodes(circuit);
    let mut i: usize = 0;
    while i < opcodes.len()
        invariant
            opcodes@ == acir_opcodes(*circuit),
            i <= opcodes@.len(),
            forall|j: int| 0 <= j < i ==> opcode_writable(#[trigger] opcodes@[j]),
        decreases opcodes@.len() - i,
    {
        if let Some((tuple, inputs)) = sort_directive(&opcodes[i]) {
            let mut k: usize = 0;
            while k < inputs.len()
                invariant
                    opcodes@ == acir_opcodes(*circuit),
                    i < opcodes@.len(),
                    acir_sort_directive(opcodes@[i as int]) == Some((tuple, inputs@)),
                    k <= inputs@.len(),
                    forall|q: int| 0 <= q < k ==> tuple <= (#[trigger] inputs@[q])@.len(),
                decreases inputs@.len() - k,
            {
                if inputs[k].len() < tuple as usize {
                    assert(inputs@[k as int]@.len() < tuple);
                    assert(!sort_inputs_fit(tuple, inputs@));
                    assert(!opcode_writable(opcodes@[i as int]));
                    return false;
                }
                k = k + 1;
            }
        }
        i = i + 1;
    }
    true
}

/// The checksum file of a circuit, where acvm can write the circuit: its 32-byte ACIR hash
/// as hex text; nothing otherwise.
pub fn try_acir_hash_artifact(circuit: &acvm::acir::circuit::Circuit) -> (r: Option<Vec<u8>>)
    ensures
        r is Some <==> circuit_writable(*circuit),
        r matches Some(text) ==> text@ == hex_encode(acir_hash(*circuit)),
{
    if is_writable(circuit) {
        Some(acir_hash_artifact(circuit))
    } else {
        None
    }
}

/// The checksum file of a circuit: its 32-byte ACIR hash as hex text.
pub fn acir_hash_artifact(circuit: &acvm::acir::circuit::Circuit) -> (r: Vec<u8>)
    requires
        circuit_writable(*circuit),
    ensures
        r@ == hex_encode(acir_hash(*circuit)),
        acir_hash(*circuit).len() == 32,
{
    let acir_hash = hash_constraint_system(circuit);
    encode_hex_artifact(acir_hash.as_slice())
}

/// Taking in parameters records no return value.
proof fn lemma_fold_keeps_returns(m: EvaluatorModel, ps: Seq<AbiParameter>)
    ensures
        params_fold(m, ps).return_values == m.return_values,
    decreases ps.len(),
{
    if ps.len() > 0 {
        lemma_fold_keeps_returns(
            param_step(m, ps[0].name@, ps[0].typ, ps[0].visibility),
            ps.drop_first(),
        );
    }
}

/// The circuit and ABI that come of taking in the parameters of `main` in a fresh evaluator:
/// the witnesses and range constraints of the parameters, recorded under their names, with
/// `abi_params` as the ABI's parameters. The ABI and the circuit come from the same list.
pub fn create_abi_circuit(abi_params: Vec<AbiParameter>, return_type: Option<AbiType>) -> (r: (
    acvm::acir::circuit::Circuit,
    Abi,
))
    requires
        !params_refused(abi_params@),
        total_witness_count(abi_params@) <= u32::MAX,
    ensures
        r.0 == acir_circuit(
            parsed_abi(initial_model(), abi_params@).current_witness_index as u32,
            parsed_abi(initial_model(), abi_params@).opcodes,
            sorted_indices(parsed_abi(initial_model(), abi_params@).public_parameters),
            Seq::<u32>::empty(),
        ),
        r.1.parameters == abi_params,
        r.1.return_type == return_type,
        r.1.return_witnesses@ == Seq::<crate::witness::Witness>::empty(),
        r.1.param_witnesses.well_formed(),
        r.1.param_witnesses@ == parsed_abi(initial_model(), abi_params@).param_witnesses,
        parsed_abi(initial_model(), abi_params@).current_witness_index == total_witness_count(
            abi_params@,
        ),
        // Every witness of the ABI is in use (index 0 never is) and belongs to one place only.
        values_within(
            r.1.param_witnesses@,
            0,
            parsed_abi(initial_model(), abi_params@).current_witness_index,
        ),
        distinct_values(r.1.param_witnesses@),
        distinct_names(abi_params@) ==> r.1.param_witnesses@.dom() == param_names(abi_params@),
        distinct_names(abi_params@) ==> parsed_abi(initial_model(), abi_params@).public_parameters
            == public_union(r.1.param_witnesses@, abi_params@),
{
    let ghost ps = abi_params@;
    proof {
        lemma_abi_witness_count(initial_model(), ps);
        lemma_fold_in_use(initial_model(), ps);
        lemma_fold_names(initial_model(), ps);
        lemma_fold_keeps_returns(initial_model(), ps);
        assert(initial_model().param_witnesses.dom().union(param_names(ps)) =~= param_names(ps));
        if distinct_names(ps) {
            lemma_fold_public(initial_model(), ps);
            assert(initial_model().public_parameters.union(
                public_union(parsed_abi(initial_model(), ps).param_witnesses, ps),
            ) =~= public_union(parsed_abi(initial_model(), ps).param_witnesses, ps));
        }
    }
    let mut evaluator = Evaluator::default();
    evaluator.parse_abi_alt(&abi_params);
    let r = evaluator.into_circuit((abi_params, return_type));
    proof {
        let e = Seq::<crate::witness::Witness>::empty();
        assert(indices(e) =~= Seq::<u32>::empty());
        assert(Seq::<u32>::empty().to_set() =~= Set::<u32>::empty());
        lemma_sorted_indices_of(Seq::<u32>::empty());
    }
    r
}

} // verus!
