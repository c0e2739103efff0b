use vstd::prelude::*;

use vstd::string::StringExecFns;

use crate::abi::{Abi, AbiParameter, AbiType, AbiVisibility, Sign};
use crate::abi_witnesses::{lemma_abi_witness_count, params_refused, total_witness_count};
use crate::acir::{
    acir_circuit, acir_link, acir_range_opcode, arithmetic_link, bool_gate, make_circuit,
    max_num_bits, quotient_split, range_opcode, split_link,
};
use crate::errors::RuntimeErrorKind;
use crate::layout::{
    constrain, distinct_values, element_bits, field_order, field_order_map, field_positions,
    fill, lemma_constrain, lemma_fill_map, string_element, lemma_field_positions_bound, lemma_fill, lemma_fill_prefix,
    lemma_insert_fresh, lemma_place_distinct, lemma_place_fields_next, lemma_place_next,
    lemma_place_representable, lemma_place_within, place, place_fields, range_extra, range_ops,
    range_refused, refused, type_refused, values_within, witness_count, witness_count_upto,
    Layout,
};
use crate::name_map::{
    keys_sorted, lemma_flattened_distinct, lemma_flattened_within, lemma_key_index,
    lemma_representable_empty, lemma_sorted_entries_of, pair_view, sorted_entries,
    values_in_key_order, NameMap, NamedWitnesses,
};
use crate::runs::{apply_op, Operation};
use crate::witness::{indices, sorted_indices, Witness, WitnessSet};

verus! {

/// What an evaluator holds, as spec values.
pub struct EvaluatorModel {
    /// The highest witness index in use; the next witness created gets this index plus one.
    pub current_witness_index: int,
    /// The number of witness indices used for the parameters of the ABI.
    pub num_witnesses_abi_len: int,
    /// The witnesses of each parameter, by parameter name.
    pub param_witnesses: Map<Seq<char>, Seq<Witness>>,
    /// The indices of the witnesses that hold public parameters.
    pub public_parameters: Set<u32>,
    /// The witnesses of the return value, in order.
    pub return_values: Seq<Witness>,
    /// The opcodes of the circuit, in order.
    pub opcodes: Seq<acvm::acir::circuit::Opcode>,
}

/// A fresh evaluator: no witness in use, nothing recorded.
pub open spec fn initial_model() -> EvaluatorModel {
    EvaluatorModel {
        current_witness_index: 0,
        num_witnesses_abi_len: 0,
        param_witnesses: Map::empty(),
        public_parameters: Set::empty(),
        return_values: Seq::empty(),
        opcodes: Seq::empty(),
    }
}

/// The allocation state of an evaluator, with `map` as the witnesses recorded by name.
pub open spec fn layout_of(m: EvaluatorModel, map: Map<Seq<char>, Seq<Witness>>) -> Layout {
    Layout { next: m.current_witness_index, map, ops: m.opcodes, failed: false }
}

/// An evaluator whose highest witness index and opcodes are those of `st`.
pub open spec fn with_layout(m: EvaluatorModel, st: Layout) -> EvaluatorModel {
    EvaluatorModel { current_witness_index: st.next, opcodes: st.ops, ..m }
}

/// The witnesses of a parameter named `name` of type `t`, given the allocation `st` of its
/// witnesses: for a struct, those of all its fields in increasing order of their full names.
pub open spec fn param_witness_list(name: Seq<char>, t: AbiType, st: Layout) -> Seq<Witness> {
    match t {
        AbiType::Struct { .. } => values_in_key_order(st.map),
        _ => st.map[name],
    }
}

/// The evaluator after it has taken in a parameter of the ABI. Where a range constraint is
/// refused, the witnesses and opcodes made up to there stay, and nothing is recorded.
pub open spec fn param_step(
    m: EvaluatorModel,
    name: Seq<char>,
    t: AbiType,
    visibility: AbiVisibility,
) -> EvaluatorModel {
    let st = place(name, t, layout_of(m, Map::empty()));
    let ws = param_witness_list(name, t, st);
    if st.failed {
        with_layout(m, st)
    } else {
        EvaluatorModel {
        current_witness_index: st.next,
        param_witnesses: m.param_witnesses.insert(name, ws),
        public_parameters: if visibility == AbiVisibility::Public {
            m.public_parameters.union(indices(ws).to_set())
        } else {
            m.public_parameters
        },
        opcodes: st.ops,
        ..m
        }
    }
}

/// The evaluator after it has taken in the parameters `ps`, in order.
pub open spec fn params_fold(m: EvaluatorModel, ps: Seq<AbiParameter>) -> EvaluatorModel
    decreases ps.len(),
{
    if ps.len() == 0 {
        m
    } else {
        params_fold(param_step(m, ps[0].name@, ps[0].typ, ps[0].visibility), ps.drop_first())
    }
}

/// Taking in a parameter never lowers the highest witness index, and where no range
/// constraint is refused it takes exactly as many witnesses as its type needs.
pub proof fn lemma_param_step_count(
    m: EvaluatorModel,
    name: Seq<char>,
    t: AbiType,
    visibility: AbiVisibility,
)
    ensures
        param_step(m, name, t, visibility).current_witness_index >= m.current_witness_index,
        !refused(name, t) ==> param_step(m, name, t, visibility).current_witness_index
            == m.current_witness_index + witness_count(name, t),
        !refused(name, t) ==> !place(name, t, layout_of(m, Map::empty())).failed,
{
    lemma_place_next(name, t, layout_of(m, Map::empty()));
}

/// The witnesses that a parameter gets are new, above every index in use before and not
/// above the highest index in use after, and none of them occurs twice.
pub proof fn lemma_param_step_fresh(
    m: EvaluatorModel,
    name: Seq<char>,
    t: AbiType,
    visibility: AbiVisibility,
)
    requires
        0 <= m.current_witness_index,
        !refused(name, t),
        m.current_witness_index + witness_count(name, t) <= u32::MAX,
    ensures
        param_step(m, name, t, visibility).param_witnesses[name].no_duplicates(),
        forall|i: int|
            0 <= i < param_step(m, name, t, visibility).param_witnesses[name].len()
                ==> m.current_witness_index < (#[trigger] param_step(
                m,
                name,
                t,
                visibility,
            ).param_witnesses[name][i]).0 <= param_step(m, name, t, visibility).current_witness_index,
{
    let st0 = layout_of(m, Map::empty());
    let st = place(name, t, st0);
    lemma_place_next(name, t, st0);
    lemma_place_within(name, t, st0, m.current_witness_index);
    lemma_place_distinct(name, t, st0, m.current_witness_index);
    let ws = param_witness_list(name, t, st);
    match t {
        AbiType::Struct { .. } => {
            lemma_representable_empty::<Seq<Witness>>();
            lemma_place_representable(name, t, st0);
            let s = sorted_entries(st.map);
            assert(keys_sorted(s) && crate::name_map::assoc_map(s) == st.map);
            assert forall|i: int, j: int|
                0 <= i < s.len() && 0 <= j < s[i].1.len() implies m.current_witness_index < (
                #[trigger] s[i].1[j]).0 <= st.next by {
                lemma_key_index(s, i);
                assert(st.map[s[i].0][j] == s[i].1[j]);
            }
            lemma_flattened_within(s, m.current_witness_index, st.next);
            assert forall|i1: int, j1: int, i2: int, j2: int|
                0 <= i1 < s.len() && 0 <= i2 < s.len() && 0 <= j1 < s[i1].1.len() && 0 <= j2
                    < s[i2].1.len() && (i1 != i2 || j1 != j2) implies #[trigger] s[i1].1[j1]
                != #[trigger] s[i2].1[j2] by {
                lemma_key_index(s, i1);
                lemma_key_index(s, i2);
                if i1 != i2 {
                    if i1 < i2 {
                        assert(crate::names::str_lt(s[i1].0, s[i2].0));
                    } else {
                        assert(crate::names::str_lt(s[i2].0, s[i1].0));
                    }
                    crate::names::lemma_str_lt_irreflexive(s[i1].0);
                }
                assert(st.map[s[i1].0][j1] == s[i1].1[j1]);
                assert(st.map[s[i2].0][j2] == s[i2].1[j2]);
            }
            lemma_flattened_distinct(s);
        },
        _ => {
            assert(ws == st.map[name]);
        },
    }
    assert(param_step(m, name, t, visibility).param_witnesses[name] == ws);
}

/// Taking in parameters never lowers the highest witness index.
pub proof fn lemma_params_fold_monotone(m: EvaluatorModel, ps: Seq<AbiParameter>)
    ensures
        params_fold(m, ps).current_witness_index >= m.current_witness_index,
    decreases ps.len(),
{
    if ps.len() > 0 {
        lemma_param_step_count(m, ps[0].name@, ps[0].typ, ps[0].visibility);
        lemma_params_fold_monotone(
            param_step(m, ps[0].name@, ps[0].typ, ps[0].visibility),
            ps.drop_first(),
        );
    }
}

/// `w` was created for the ABI (it is not above the ABI's witnesses) and is not a public
/// parameter.
pub open spec fn private_abi_input(m: EvaluatorModel, w: Witness) -> bool {
    w.0 <= m.num_witnesses_abi_len && !m.public_parameters.contains(w.0)
}

/// What `Evaluator::parse_abi_alt` makes of an evaluator.
pub open spec fn parsed_abi(m: EvaluatorModel, ps: Seq<AbiParameter>) -> EvaluatorModel {
    EvaluatorModel {
        num_witnesses_abi_len: params_fold(m, ps).current_witness_index,
        ..params_fold(m, ps)
    }
}

/// The error of a refused range constraint.
pub open spec fn is_range_refusal(e: RuntimeErrorKind) -> bool {
    e matches RuntimeErrorKind::UnstructuredError { message } && message@ == range_refusal_message()
}

/// What a refused range constraint says.
pub open spec fn range_refusal_message() -> Seq<char> {
    "All Witnesses are by default u254. Applying this type does not apply any constraints."@
}

/// The error of a refused range constraint.
fn range_refusal() -> (e: RuntimeErrorKind)
    ensures
        is_range_refusal(e),
{
    proof {
        reveal_strlit("All Witnesses are by default u254. Applying this type does not apply any constraints.");
    }
    RuntimeErrorKind::UnstructuredError {
        message: String::from_str(
            "All Witnesses are by default u254. Applying this type does not apply any constraints.",
        ),
    }
}

/// Builds the constraint system of a program: hands out witness indices, records which
/// witnesses hold the parameters of the ABI and collects the opcodes.
pub struct Evaluator {
    // Index 0 is reserved: every witness that the evaluator creates gets an index above it.
    current_witness_index: u32,
    num_witnesses_abi_len: usize,
    param_witnesses: NamedWitnesses,
    // Witnesses up to `num_witnesses_abi_len` that are not in this set hold private
    // parameters and must not be made public.
    public_parameters: WitnessSet,
    // Not necessarily contiguous nor increasing: kept in order for the ABI.
    return_values: Vec<Witness>,
    opcodes: Vec<acvm::acir::circuit::Opcode>,
}

impl View for Evaluator {
    type V = EvaluatorModel;

    closed spec fn view(&self) -> EvaluatorModel {
        EvaluatorModel {
            current_witness_index: self.current_witness_index as int,
            num_witnesses_abi_len: self.num_witnesses_abi_len as int,
            param_witnesses: self.param_witnesses@,
            public_parameters: self.public_parameters@,
            return_values: self.return_values@,
            opcodes: self.opcodes@,
        }
    }
}

impl Default for Evaluator {
    fn default() -> (e: Self)
        ensures
            e.well_formed(),
            e@ == initial_model(),
    {
        let e = Evaluator {
            current_witness_index: 0,
            num_witnesses_abi_len: 0,
            param_witnesses: NamedWitnesses::new(),
            public_parameters: WitnessSet::new(),
            return_values: Vec::new(),
            opcodes: Vec::new(),
        };
        assert(e@.return_values =~= Seq::<Witness>::empty());
        assert(e@.opcodes =~= Seq::<acvm::acir::circuit::Opcode>::empty());
        e
    }
}

impl Evaluator {
    pub closed spec fn well_formed(&self) -> bool {
        &&& self.param_witnesses.well_formed()
        &&& values_within(self.param_witnesses@, 0, self.current_witness_index as int)
        &&& distinct_values(self.param_witnesses@)
        &&& forall|x: u32|
            self.public_parameters@.contains(x) ==> 0 < x <= self.current_witness_index
    }

    /// Every witness recorded for a parameter, and every public parameter, has been created
    /// by the evaluator: its index is between 1 and the highest index in use. No witness is
    /// recorded for two parameters, nor twice for one.
    pub proof fn lemma_witnesses_in_use(&self)
        requires
            self.well_formed(),
        ensures
            values_within(self@.param_witnesses, 0, self@.current_witness_index),
            distinct_values(self@.param_witnesses),
            forall|x: u32|
                self@.public_parameters.contains(x) ==> 0 < x <= self@.current_witness_index,
    {
    }

    pub fn current_witness_index(&self) -> (r: u32)
        ensures
            r == self@.current_witness_index,
    {
        self.current_witness_index
    }

    pub fn num_witnesses_abi_len(&self) -> (r: usize)
        ensures
            r == self@.num_witnesses_abi_len,
    {
        self.num_witnesses_abi_len
    }

    /// The witnesses recorded for each parameter, in increasing order of parameter name.
    pub fn param_witnesses(&self) -> (r: &NamedWitnesses)
        requires
            self.well_formed(),
        ensures
            r.well_formed(),
            r@ == self@.param_witnesses,
    {
        &self.param_witnesses
    }

    /// The public parameters, in increasing order of index.
    pub fn public_parameters(&self) -> (r: &WitnessSet)
        ensures
            r@ == self@.public_parameters,
    {
        &self.public_parameters
    }

    pub fn return_values(&self) -> (r: &Vec<Witness>)
        ensures
            r@ == self@.return_values,
    {
        &self.return_values
    }

    pub fn opcodes(&self) -> (r: &Vec<acvm::acir::circuit::Opcode>)
        ensures
            r@ == self@.opcodes,
    {
        &self.opcodes
    }

    /// Creates a new witness, with the index after the highest one in use.
    pub fn add_witness_to_cs(&mut self) -> (w: Witness)
        requires
            old(self)@.current_witness_index < u32::MAX,
        ensures
            w.0 == old(self)@.current_witness_index + 1,
            final(self)@ == (EvaluatorModel {
                current_witness_index: old(self)@.current_witness_index + 1,
                ..old(self)@
            }),
            final(self)@ == apply_op(old(self)@, Operation::AddWitness),
            old(self).well_formed() ==> final(self).well_formed(),
    {
        self.current_witness_index = self.current_witness_index + 1;
        Witness(self.current_witness_index)
    }

    pub fn push_opcode(&mut self, gate: acvm::acir::circuit::Opcode)
        ensures
            final(self)@ == (EvaluatorModel { opcodes: old(self)@.opcodes.push(gate), ..old(self)@ }),
            final(self)@ == apply_op(old(self)@, Operation::PushOpcode(gate)),
            old(self).well_formed() ==> final(self).well_formed(),
    {
        self.opcodes.push(gate);
    }

    /// Records a witness of the return value, after those recorded before.
    pub fn push_return_value(&mut self, witness: Witness)
        ensures
            final(self)@ == (EvaluatorModel {
                return_values: old(self)@.return_values.push(witness),
                ..old(self)@
            }),
            final(self)@ == apply_op(old(self)@, Operation::PushReturnValue(witness)),
            old(self).well_formed() ==> final(self).well_formed(),
    {
        self.return_values.push(witness);
    }

    /// Constrains the value of `witness` to `num_bits` bits, with the opcodes of `range_ops`:
    /// a boolean gate for 1 bit, acvm's `RANGE` call for an even width, and for another odd
    /// width a split into an even-width remainder and a top bit, on two new witnesses. A
    /// range as wide as the field is refused with an error, and the evaluator is left as it
    /// was.
    fn range_constraint(&mut self, witness: Witness, num_bits: u32) -> (r: Result<
        (),
        RuntimeErrorKind,
    >)
        requires
            old(self)@.current_witness_index + range_extra(num_bits) <= u32::MAX,
        ensures
            r is Err <==> range_refused(num_bits),
            r matches Err(e) ==> is_range_refusal(e),
            final(self)@ == with_layout(
                old(self)@,
                constrain(layout_of(old(self)@, Map::empty()), witness.0, num_bits),
            ),
            old(self).well_formed() ==> final(self).well_formed(),
        decreases num_bits, 0int,
    {
        let ghost m0 = self@;
        let max_bits = max_num_bits();
        if num_bits == 1 {
            let gate = bool_gate(witness);
            self.opcodes.push(gate);
        } else if num_bits == max_bits {
            return Err(range_refusal());
        } else if num_bits % 2 == 1 {
            // Split the value into a remainder of `num_bits - 1` bits and a top bit.
            let r_witness = self.add_witness_to_cs();
            let b_witness = self.add_witness_to_cs();
            let low_bits = num_bits - 1;
            let split = quotient_split(witness, r_witness, b_witness, low_bits);
            self.opcodes.push(split);
            let ghost m1 = self@;
            self.try_range_constraint(r_witness, low_bits);
            let ghost m2 = self@;
            self.try_range_constraint(b_witness, 1);
            let link = split_link(witness, r_witness, b_witness, low_bits);
            self.opcodes.push(link);
            proof {
                let r = (m0.current_witness_index + 1) as u32;
                let b = (m0.current_witness_index + 2) as u32;
                let middle: Seq<acvm::acir::circuit::Opcode> = if range_refused(low_bits) {
                    Seq::empty()
                } else {
                    seq![acir_range_opcode(r, low_bits)]
                };
                assert(m2.opcodes =~= m1.opcodes + middle);
                assert(self@.opcodes =~= m0.opcodes + range_ops(witness.0, num_bits, m0.current_witness_index));
            }
        } else {
            let op = range_opcode(witness, num_bits);
            self.opcodes.push(op);
        }
        proof {
            assert(self@.opcodes =~= m0.opcodes + range_ops(witness.0, num_bits, m0.current_witness_index));
        }
        Ok(())
    }

    /// A range constraint whose refusal is passed over.
    fn try_range_constraint(&mut self, witness: Witness, num_bits: u32)
        requires
            old(self)@.current_witness_index + range_extra(num_bits) <= u32::MAX,
        ensures
            final(self)@ == with_layout(
                old(self)@,
                constrain(layout_of(old(self)@, Map::empty()), witness.0, num_bits),
            ),
            old(self).well_formed() ==> final(self).well_formed(),
        decreases num_bits, 1int,
    {
        let _ = self.range_constraint(witness, num_bits);
    }

    /// Returns true when `witness_index` was created for the ABI as a private input: it is
    /// not above the witnesses of the ABI and is not a public parameter.
    pub fn is_private_abi_input(&self, witness_index: Witness) -> (r: bool)
        requires
            self.well_formed(),
        ensures
            r == private_abi_input(self@, witness_index),
    {
        let is_intermediate_variable = witness_index.as_usize() > self.num_witnesses_abi_len;
        let is_public_input = self.public_parameters.contains(witness_index);
        !is_intermediate_variable && !is_public_input
    }

    /// Creates a witness for an arithmetic expression with too many terms, with an opcode
    /// constraining the expression minus the new witness to zero; multiplications can then
    /// use the witness in place of the expression.
    pub fn create_intermediate_variable(
        &mut self,
        arithmetic_gate: acvm::acir::native_types::Expression,
    ) -> (w: Witness)
        requires
            old(self)@.current_witness_index < u32::MAX,
        ensures
            w.0 == old(self)@.current_witness_index + 1,
            final(self)@ == (EvaluatorModel {
                current_witness_index: old(self)@.current_witness_index + 1,
                opcodes: old(self)@.opcodes.push(acir_link(arithmetic_gate, w.0)),
                ..old(self)@
            }),
            final(self)@ == apply_op(old(self)@, Operation::IntermediateVariable(arithmetic_gate)),
            old(self).well_formed() ==> final(self).well_formed(),
    {
        let inter_var_witness = self.add_witness_to_cs();
        let constraint = arithmetic_link(&arithmetic_gate, inter_var_witness);
        self.opcodes.push(constraint);
        inter_var_witness
    }

    /// Creates `length` witnesses for the elements of an array, with a range constraint on
    /// each right after it is created when the elements are integers. A refused constraint
    /// stops it with the error; the witnesses and opcodes made up to there stay.
    fn generate_array_witnesses(&mut self, length: u64, typ: &AbiType) -> (r: Result<
        Vec<Witness>,
        RuntimeErrorKind,
    >)
        requires
            fill(layout_of(old(self)@, Map::empty()), length as nat, *typ).0.next <= u32::MAX,
        ensures
            final(self)@ == with_layout(
                old(self)@,
                fill(layout_of(old(self)@, Map::empty()), length as nat, *typ).0,
            ),
            r is Err <==> fill(layout_of(old(self)@, Map::empty()), length as nat, *typ).0.failed,
            r matches Ok(ws) ==> ws@ == fill(
                layout_of(old(self)@, Map::empty()),
                length as nat,
                *typ,
            ).1,
            r matches Err(e) ==> is_range_refusal(e),
            old(self).well_formed() ==> final(self).well_formed(),
    {
        let ghost m0 = self@;
        let ghost st0 = layout_of(m0, Map::empty());
        let mut witnesses: Vec<Witness> = Vec::new();
        let element_width: Option<u32> = match typ {
            AbiType::Integer { width, .. } => Some(*width),
            _ => None,
        };
        let mut i: u64 = 0;
        assert(witnesses@ =~= Seq::<Witness>::empty());
        assert(self@ =~= with_layout(m0, st0));
        while i < length
            invariant
                i <= length,
                m0 == old(self)@,
                st0 == layout_of(m0, Map::empty()),
                element_width == element_bits(*typ),
                !fill(st0, i as nat, *typ).0.failed,
                witnesses@ == fill(st0, i as nat, *typ).1,
                self@ == with_layout(m0, fill(st0, i as nat, *typ).0),
                fill(st0, length as nat, *typ).0.next <= u32::MAX,
                old(self).well_formed() ==> self.well_formed(),
            decreases length - i,
        {
            proof {
                lemma_fill_prefix(st0, (i + 1) as nat, length as nat, *typ);
                lemma_fill(st0, (i + 1) as nat, *typ);
                lemma_fill(st0, i as nat, *typ);
            }
            let witness = self.add_witness_to_cs();
            witnesses.push(witness);
            if let Some(ww) = element_width {
                proof {
                    let s1 = fill(st0, i as nat, *typ).0;
                    lemma_constrain(Layout { next: s1.next + 1, ..s1 }, witness.0, ww);
                }
                let res = self.range_constraint(witness, ww);
                if let Err(e) = res {
                    return Err(e);
                }
            }
            i = i + 1;
        }
        Ok(witnesses)
    }

    /// Creates the witnesses of a value of type `typ` and records them under `name`
    /// (one entry per field for a struct).
    fn place_field(
        &mut self,
        struct_witnesses: &mut NamedWitnesses,
        name: String,
        typ: &AbiType,
    ) -> (r: Result<(), RuntimeErrorKind>)
        requires
            old(self).well_formed(),
            old(struct_witnesses).well_formed(),
            place(name@, *typ, layout_of(old(self)@, old(struct_witnesses)@)).next <= u32::MAX,
        ensures
            final(self).well_formed(),
            final(struct_witnesses).well_formed(),
            final(self)@ == with_layout(
                old(self)@,
                place(name@, *typ, layout_of(old(self)@, old(struct_witnesses)@)),
            ),
            final(struct_witnesses)@ == place(
                name@,
                *typ,
                layout_of(old(self)@, old(struct_witnesses)@),
            ).map,
            r is Err <==> place(name@, *typ, layout_of(old(self)@, old(struct_witnesses)@)).failed,
            r matches Err(e) ==> is_range_refusal(e),
        decreases typ, 0int,
    {
        let ghost st0 = layout_of(self@, struct_witnesses@);
        proof {
            lemma_place_next(name@, *typ, st0);
        }
        match typ {
            AbiType::Integer { width, .. } => {
                let witness = self.add_witness_to_cs();
                let ws = vec![witness];
                assert(ws@ =~= seq![witness]);
                struct_witnesses.insert(name, ws);
                proof {
                    lemma_constrain(layout_of(self@, Map::empty()), witness.0, *width);
                }
                self.range_constraint(witness, *width)
            },
            AbiType::Boolean => {
                let witness = self.add_witness_to_cs();
                let ws = vec![witness];
                assert(ws@ =~= seq![witness]);
                struct_witnesses.insert(name, ws);
                self.range_constraint(witness, 1)
            },
            AbiType::Field => {
                let witness = self.add_witness_to_cs();
                let ws = vec![witness];
                assert(ws@ =~= seq![witness]);
                struct_witnesses.insert(name, ws);
                Ok(())
            },
            AbiType::Array { length, typ } => {
                proof {
                    lemma_fill(layout_of(self@, Map::empty()), *length as nat, **typ);
                    lemma_fill(st0, *length as nat, **typ);
                    lemma_fill_map(layout_of(self@, Map::empty()), st0.map, *length as nat, **typ);
                    assert(layout_of(self@, Map::empty()) == (Layout { map: Map::empty(), ..st0 }));
                    assert(st0 == (Layout { map: st0.map, ..layout_of(self@, Map::empty()) }));
                }
                match self.generate_array_witnesses(*length, typ) {
                    Ok(internal_arr_witnesses) => {
                        struct_witnesses.insert(name, internal_arr_witnesses);
                        Ok(())
                    },
                    Err(e) => Err(e),
                }
            },
            AbiType::Struct { fields } => self.generate_struct_witnesses(struct_witnesses, &name, fields),
            AbiType::String { length } => {
                let typ = AbiType::Integer { sign: Sign::Unsigned, width: 8 };
                proof {
                    lemma_fill(layout_of(self@, Map::empty()), *length as nat, typ);
                    lemma_fill(st0, *length as nat, typ);
                    lemma_fill_map(layout_of(self@, Map::empty()), st0.map, *length as nat, typ);
                    assert(st0 == (Layout { map: st0.map, ..layout_of(self@, Map::empty()) }));
                    assert(typ == string_element());
                }
                match self.generate_array_witnesses(*length, &typ) {
                    Ok(internal_str_witnesses) => {
                        struct_witnesses.insert(name, internal_str_witnesses);
                        Ok(())
                    },
                    Err(e) => Err(e),
                }
            },
        }
    }

    /// Creates the witnesses of the fields of a struct recorded under `prefix`, each field
    /// under `{prefix}.{field}`, in increasing order of those names.
    fn generate_struct_witnesses(
        &mut self,
        struct_witnesses: &mut NamedWitnesses,
        prefix: &String,
        fields: &Vec<(String, AbiType)>,
    ) -> (r: Result<(), RuntimeErrorKind>)
        requires
            old(self).well_formed(),
            old(struct_witnesses).well_formed(),
            place_fields(
                fields@,
                field_order(prefix@, fields@),
                0,
                layout_of(old(self)@, old(struct_witnesses)@),
            ).next <= u32::MAX,
        ensures
            final(self).well_formed(),
            final(struct_witnesses).well_formed(),
            final(self)@ == with_layout(
                old(self)@,
                place_fields(
                    fields@,
                    field_order(prefix@, fields@),
                    0,
                    layout_of(old(self)@, old(struct_witnesses)@),
                ),
            ),
            final(struct_witnesses)@ == place_fields(
                fields@,
                field_order(prefix@, fields@),
                0,
                layout_of(old(self)@, old(struct_witnesses)@),
            ).map,
            r is Err <==> place_fields(
                fields@,
                field_order(prefix@, fields@),
                0,
                layout_of(old(self)@, old(struct_witnesses)@),
            ).failed,
            r matches Err(e) ==> is_range_refusal(e),
        decreases fields@, 1int,
    {
        let ghost m0 = self@;
        let ghost st0 = layout_of(self@, struct_witnesses@);
        let ghost fs = fields@;
        // The fields keyed by their full names, as a BTreeMap of them would be.
        let order = field_order_map(prefix, fields);
        let ghost ord = field_order(prefix@, fs);
        let entries = order.as_vec();
        let mut k: usize = 0;
        while k < entries.len()
            invariant
                fs == fields@,
                ord == field_order(prefix@, fs),
                entries@.map_values(|e: (String, usize)| pair_view(e)) == ord,
                crate::name_map::keys_sorted(ord),
                crate::name_map::assoc_map(ord) == field_positions(prefix@, fs),
                k <= entries@.len(),
                self.well_formed(),
                struct_witnesses.well_formed(),
                m0 == old(self)@,
                st0 == layout_of(old(self)@, old(struct_witnesses)@),
                place_fields(fs, ord, 0, st0) == place_fields(
                    fs,
                    ord,
                    k as int,
                    layout_of(self@, struct_witnesses@),
                ),
                place_fields(fs, ord, 0, st0).next <= u32::MAX,
                self@ == with_layout(m0, layout_of(self@, struct_witnesses@)),
            decreases entries@.len() - k,
        {
            let idx = entries[k].1;
            let name = entries[k].0.clone();
            let ghost cur = layout_of(self@, struct_witnesses@);
            proof {
                assert(ord[k as int] == pair_view(entries@[k as int]));
                lemma_key_index(ord, k as int);
                lemma_field_positions_bound(prefix@, fs, ord[k as int].0);
                let nxt = place(ord[k as int].0, fs[idx as int].1, cur);
                lemma_place_fields_next(fs, ord, k + 1, nxt);
            }
            let res = self.place_field(struct_witnesses, name, &fields[idx].1);
            if let Err(e) = res {
                proof {
                    let nxt = place(ord[k as int].0, fs[idx as int].1, cur);
                    lemma_place_fields_next(fs, ord, k + 1, nxt);
                }
                return Err(e);
            }
            k = k + 1;
        }
        proof {
            lemma_place_fields_next(fs, ord, k as int, layout_of(self@, struct_witnesses@));
        }
        Ok(())
    }

    /// Creates the witnesses of a parameter of the main function, with the range constraints
    /// that its type calls for, and records them under the parameter's name (and among the
    /// public parameters when the parameter is public).
    pub fn param_to_var(
        &mut self,
        name: &str,
        param_type: &AbiType,
        param_visibility: &AbiVisibility,
    ) -> (r: Result<(), RuntimeErrorKind>)
        requires
            old(self).well_formed(),
            old(self)@.current_witness_index + witness_count(name@, *param_type) <= u32::MAX,
        ensures
            final(self).well_formed(),
            final(self)@ == param_step(old(self)@, name@, *param_type, *param_visibility),
            final(self)@ == apply_op(
                old(self)@,
                Operation::ParamToVar(name@, *param_type, *param_visibility),
            ),
            r is Err <==> refused(name@, *param_type),
            r matches Err(e) ==> is_range_refusal(e),
            r is Ok ==> final(self)@.param_witnesses[name@].no_duplicates(),
            r is Ok ==> forall|i: int|
                0 <= i < final(self)@.param_witnesses[name@].len() ==> old(self)@.current_witness_index
                    < (#[trigger] final(self)@.param_witnesses[name@][i]).0
                    <= final(self)@.current_witness_index,
    {
        let ghost m0 = self@;
        let ghost st0 = layout_of(m0, Map::empty());
        let ghost st = place(name@, *param_type, st0);
        proof {
            lemma_place_next(name@, *param_type, st0);
            if !refused(name@, *param_type) {
                lemma_param_step_fresh(m0, name@, *param_type, *param_visibility);
            }
        }
        let owned_name = name.to_owned();
        let witnesses: Vec<Witness> = match param_type {
            AbiType::Field => {
                let witness = self.add_witness_to_cs();
                let ws = vec![witness];
                assert(ws@ =~= seq![witness]);
                ws
            },
            AbiType::Array { length, typ } => {
                proof {
                    lemma_fill(st0, *length as nat, **typ);
                }
                match self.generate_array_witnesses(*length, typ) {
                    Ok(ws) => ws,
                    Err(e) => return Err(e),
                }
            },
            AbiType::Integer { width, .. } => {
                let witness = self.add_witness_to_cs();
                proof {
                    lemma_constrain(layout_of(self@, Map::empty()), witness.0, *width);
                }
                if let Err(e) = self.range_constraint(witness, *width) {
                    return Err(e);
                }
                let ws = vec![witness];
                assert(ws@ =~= seq![witness]);
                ws
            },
            AbiType::Boolean => {
                let witness = self.add_witness_to_cs();
                let _ = self.range_constraint(witness, 1);
                let ws = vec![witness];
                assert(ws@ =~= seq![witness]);
                ws
            },
            AbiType::Struct { fields } => {
                let mut struct_witnesses: NamedWitnesses = NameMap::new();
                if let Err(e) = self.generate_struct_witnesses(&mut struct_witnesses, &owned_name, fields) {
                    return Err(e);
                }
                proof {
                    lemma_sorted_entries_of(struct_witnesses.pairs());
                }
                struct_witnesses.flattened_values()
            },
            AbiType::String { length } => {
                let typ = AbiType::Integer { sign: Sign::Unsigned, width: 8 };
                proof {
                    lemma_fill(st0, *length as nat, typ);
                }
                match self.generate_array_witnesses(*length, &typ) {
                    Ok(ws) => ws,
                    Err(e) => return Err(e),
                }
            },
        };
        assert(witnesses@ == param_witness_list(name@, *param_type, st));
        assert(self@ == (EvaluatorModel { current_witness_index: st.next, opcodes: st.ops, ..m0 }));
        if *param_visibility == AbiVisibility::Public {
            self.public_parameters.extend(&witnesses);
        }
        proof {
            lemma_insert_fresh(
                m0.param_witnesses,
                0,
                m0.current_witness_index,
                name@,
                witnesses@,
                st.next,
            );
        }
        self.param_witnesses.insert(owned_name, witnesses);
        Ok(())
    }

    /// Whether `Evaluator::parse_abi_alt` can take in the parameters `abi_params`: no range
    /// constraint of theirs is refused, and their witnesses fit after those in use, every
    /// witness index within `u32`.
    pub fn can_take_abi(&self, abi_params: &Vec<AbiParameter>) -> (r: bool)
        ensures
            r == (!params_refused(abi_params@) && self@.current_witness_index
                + total_witness_count(abi_params@) <= u32::MAX),
            !params_refused(abi_params@) ==> params_fold(self@, abi_params@).current_witness_index
                == self@.current_witness_index + total_witness_count(abi_params@),
    {
        let ghost ps = abi_params@;
        proof {
            if !params_refused(ps) {
                lemma_abi_witness_count(self@, ps);
            }
        }
        let mut room: u64 = (u32::MAX - self.current_witness_index) as u64;
        let mut i: usize = 0;
        assert(ps.skip(0) =~= ps);
        while i < abi_params.len()
            invariant
                ps == abi_params@,
                i <= ps.len(),
                room <= u32::MAX,
                params_refused(ps) == params_refused(ps.skip(i as int)),
                !params_refused(ps) ==> params_fold(self@, ps).current_witness_index
                    == self@.current_witness_index + total_witness_count(ps),
                self@.current_witness_index + total_witness_count(ps) == u32::MAX - room
                    + total_witness_count(ps.skip(i as int)),
            decreases ps.len() - i,
        {
            let param = &abi_params[i];
            proof {
                assert(ps.skip(i as int)[0] == ps[i as int]);
                assert(ps.skip(i as int).drop_first() =~= ps.skip(i + 1));
                assert(total_witness_count(ps.skip(i as int)) == witness_count(param.name@, param.typ)
                    + total_witness_count(ps.skip(i + 1)));
            }
            if type_refused(&param.name, &param.typ) {
                return false;
            }
            let c = witness_count_upto(&param.name, &param.typ, room);
            if c > room {
                return false;
            }
            room = room - c;
            i = i + 1;
        }
        assert(ps.skip(ps.len() as int) =~= Seq::<AbiParameter>::empty());
        true
    }

    /// Takes in the parameters of the ABI in order, then records how many witness indices
    /// they use.
    pub fn parse_abi_alt(&mut self, abi_params: &Vec<AbiParameter>)
        requires
            old(self).well_formed(),
            !params_refused(abi_params@),
            params_fold(old(self)@, abi_params@).current_witness_index <= u32::MAX,
        ensures
            final(self).well_formed(),
            final(self)@ == parsed_abi(old(self)@, abi_params@),
            final(self)@ == apply_op(old(self)@, Operation::ParseAbi(abi_params@)),
    {
        let ghost ps = abi_params@;
        let ghost target = params_fold(self@, ps);
        let mut i: usize = 0;
        assert(ps.skip(0) =~= ps);
        while i < abi_params.len()
            invariant
                ps == abi_params@,
                i <= ps.len(),
                self.well_formed(),
                target == params_fold(self@, ps.skip(i as int)),
                target.current_witness_index <= u32::MAX,
                !params_refused(ps.skip(i as int)),
            decreases ps.len() - i,
        {
            let param = &abi_params[i];
            proof {
                let rest = ps.skip(i as int);
                assert(rest[0] == ps[i as int]);
                assert(rest.drop_first() =~= ps.skip(i + 1));
                let next = param_step(self@, param.name@, param.typ, param.visibility);
                lemma_param_step_count(self@, param.name@, param.typ, param.visibility);
                lemma_params_fold_monotone(next, ps.skip(i + 1));
            }
            let res = self.param_to_var(param.name.as_str(), &param.typ, &param.visibility);
            assert(res is Ok);
            i = i + 1;
        }
        assert(ps.skip(ps.len() as int) =~= Seq::<AbiParameter>::empty());
        self.num_witnesses_abi_len = self.current_witness_index as usize;
    }

    /// The circuit that the evaluator has built (before acvm's compiler optimizes it) and
    /// the ABI of the program: its parameters and return type from the signature of the
    /// main function, with the witnesses that the evaluator recorded for them.
    pub fn into_circuit(
        self,
        main_function_signature: (Vec<AbiParameter>, Option<AbiType>),
    ) -> (r: (acvm::acir::circuit::Circuit, Abi))
        requires
            self.well_formed(),
        ensures
            r.0 == acir_circuit(
                self@.current_witness_index as u32,
                self@.opcodes,
                sorted_indices(self@.public_parameters),
                sorted_indices(indices(self@.return_values).to_set()),
            ),
            r.1.parameters == main_function_signature.0,
            r.1.param_witnesses.well_formed(),
            r.1.param_witnesses@ == self@.param_witnesses,
            r.1.return_type == main_function_signature.1,
            r.1.return_witnesses@ == self@.return_values,
    {
        let ghost m = self@;
        let Evaluator {
            current_witness_index,
            param_witnesses,
            public_parameters,
            return_values,
            opcodes,
            ..
        } = self;
        // Return values may repeat and come in any order; the circuit takes them as a set.
        let mut returned = WitnessSet::new();
        returned.extend(&return_values);
        let public_list = public_parameters.to_vec();
        let returned_list = returned.to_vec();
        proof {
            assert(returned@ =~= indices(return_values@).to_set());
            assert(public_parameters@ == m.public_parameters);
        }
        let circuit = make_circuit(current_witness_index, opcodes, public_list, returned_list);
        let (parameters, return_type) = main_function_signature;
        let abi = Abi { parameters, param_witnesses, return_type, return_witnesses: return_values };
        (circuit, abi)
    }
}

} // verus!
