use vstd::prelude::*;

use crate::abi::{AbiParameter, AbiType, AbiVisibility};
use crate::acir::acir_link;
use crate::evaluator::{
    initial_model, lemma_param_step_count, lemma_params_fold_monotone, param_step, parsed_abi,
    EvaluatorModel,
};

verus! {

/// The operations of `Evaluator` that change it, with their arguments.
pub ghost enum Operation {
    /// `Evaluator::add_witness_to_cs`
    AddWitness,
    /// `Evaluator::push_opcode`
    PushOpcode(acvm::acir::circuit::Opcode),
    /// `Evaluator::push_return_value`
    PushReturnValue(crate::witness::Witness),
    /// `Evaluator::create_intermediate_variable`
    IntermediateVariable(acvm::acir::native_types::Expression),
    /// `Evaluator::param_to_var`
    ParamToVar(Seq<char>, AbiType, AbiVisibility),
    /// `Evaluator::parse_abi_alt`
    ParseAbi(Seq<AbiParameter>),
}

/// The evaluator after the operation `op`: what the operation's contract says it becomes.
pub open spec fn apply_op(m: EvaluatorModel, op: Operation) -> EvaluatorModel {
    match op {
        Operation::AddWitness => EvaluatorModel {
            current_witness_index: m.current_witness_index + 1,
            ..m
        },
        Operation::PushOpcode(gate) => EvaluatorModel { opcodes: m.opcodes.push(gate), ..m },
        Operation::PushReturnValue(w) => EvaluatorModel {
            return_values: m.return_values.push(w),
            ..m
        },
        Operation::IntermediateVariable(gate) => EvaluatorModel {
            current_witness_index: m.current_witness_index + 1,
            opcodes: m.opcodes.push(acir_link(gate, (m.current_witness_index + 1) as u32)),
            ..m
        },
        Operation::ParamToVar(name, t, visibility) => param_step(m, name, t, visibility),
        Operation::ParseAbi(ps) => parsed_abi(m, ps),
    }
}

/// Whether `op` creates one witness and hands it out (`Evaluator::add_witness_to_cs`,
/// `Evaluator::create_intermediate_variable`).
pub open spec fn hands_out_witness(op: Operation) -> bool {
    op is AddWitness || op is IntermediateVariable
}

/// The evaluator after the operations `ops`, in order.
pub open spec fn run(m: EvaluatorModel, ops: Seq<Operation>) -> EvaluatorModel
    decreases ops.len(),
{
    if ops.len() == 0 {
        m
    } else {
        apply_op(run(m, ops.drop_last()), ops.last())
    }
}

/// The index of the witness that the `i`-th of the operations `ops` hands out (where it
/// hands one out): one above the highest index in use before it.
pub open spec fn handed_out(m: EvaluatorModel, ops: Seq<Operation>, i: int) -> int {
    run(m, ops.take(i)).current_witness_index + 1
}

/// No operation lowers the highest witness index in use.
pub proof fn lemma_op_never_lowers(m: EvaluatorModel, op: Operation)
    ensures
        apply_op(m, op).current_witness_index >= m.current_witness_index,
{
    match op {
        Operation::ParamToVar(name, t, visibility) => {
            lemma_param_step_count(m, name, t, visibility);
        },
        Operation::ParseAbi(ps) => {
            lemma_params_fold_monotone(m, ps);
        },
        _ => {},
    }
}

/// Along any run of operations the highest witness index in use never goes down: after the
/// first `i` operations it is at most what it is after the first `j`, for `i <= j`.
pub proof fn lemma_run_never_lowers(m: EvaluatorModel, ops: Seq<Operation>, i: int, j: int)
    requires
        0 <= i <= j <= ops.len(),
    ensures
        run(m, ops.take(i)).current_witness_index <= run(m, ops.take(j)).current_witness_index,
    decreases j - i,
{
    if i < j {
        lemma_run_never_lowers(m, ops, i, j - 1);
        assert(ops.take(j).drop_last() =~= ops.take(j - 1));
        lemma_op_never_lowers(run(m, ops.take(j - 1)), ops[j - 1]);
    }
}

/// No witness index is handed out twice: of two operations of a run that each hand out a
/// witness, the later one hands out a higher index.
pub proof fn lemma_no_witness_twice(m: EvaluatorModel, ops: Seq<Operation>, i: int, j: int)
    requires
        0 <= i < j < ops.len(),
        hands_out_witness(ops[i]),
        hands_out_witness(ops[j]),
    ensures
        handed_out(m, ops, i) < handed_out(m, ops, j),
{
    assert(ops.take(i + 1).drop_last() =~= ops.take(i));
    lemma_run_never_lowers(m, ops, i + 1, j);
}

/// From a fresh evaluator, `k` intermediate variables made of the gates `gates` get the
/// indices `1, ..., k`: the highest index in use is then `k`, the `i`-th opcode links the
/// `i`-th gate to witness `i + 1`, and nothing else is recorded.
pub proof fn lemma_intermediate_variables_counted(gates: Seq<acvm::acir::native_types::Expression>)
    ensures
        ({
            let m = run(
                initial_model(),
                gates.map_values(|g: acvm::acir::native_types::Expression| Operation::IntermediateVariable(g)),
            );
            &&& m.current_witness_index == gates.len()
            &&& m.opcodes == Seq::new(gates.len(), |i: int| acir_link(gates[i], (i + 1) as u32))
            &&& m.param_witnesses == initial_model().param_witnesses
            &&& m.public_parameters == initial_model().public_parameters
            &&& m.return_values == initial_model().return_values
            &&& m.num_witnesses_abi_len == 0
        }),
    decreases gates.len(),
{
    let ops = gates.map_values(|g: acvm::acir::native_types::Expression| Operation::IntermediateVariable(g));
    if gates.len() > 0 {
        let rest = gates.drop_last();
        lemma_intermediate_variables_counted(rest);
        assert(ops.drop_last() =~= rest.map_values(
            |g: acvm::acir::native_types::Expression| Operation::IntermediateVariable(g),
        ));
        assert(run(initial_model(), ops).opcodes =~= Seq::new(
            gates.len(),
            |i: int| acir_link(gates[i], (i + 1) as u32),
        ));
    } else {
        assert(run(initial_model(), ops).opcodes =~= Seq::new(
            gates.len(),
            |i: int| acir_link(gates[i], (i + 1) as u32),
        ));
    }
}

} // verus!
