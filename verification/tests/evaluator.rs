use noirc_evaluator::abi::{AbiParameter, AbiType, AbiVisibility, Sign};
use noirc_evaluator::circuit::{create_abi_circuit, finish_circuit};
use noirc_evaluator::layout::{type_refused, witness_count_upto};
use noirc_evaluator::errors::RuntimeErrorKind;
use noirc_evaluator::evaluator::Evaluator;
use noirc_evaluator::witness::Witness;

fn field() -> AbiType {
    AbiType::Field
}

fn uint(width: u32) -> AbiType {
    AbiType::Integer { sign: Sign::Unsigned, width }
}

fn strukt(fields: Vec<(&str, AbiType)>) -> AbiType {
    AbiType::Struct { fields: fields.into_iter().map(|(n, t)| (n.to_string(), t)).collect() }
}

fn param(name: &str, typ: AbiType, visibility: AbiVisibility) -> AbiParameter {
    AbiParameter { name: name.to_string(), typ, visibility }
}

fn witnesses_of(ev: &Evaluator, name: &str) -> Vec<u32> {
    for (n, ws) in ev.param_witnesses().as_vec() {
        if n == name {
            return ws.iter().map(|w| w.0).collect();
        }
    }
    panic!("no parameter named {}", name)
}

fn names(ev: &Evaluator) -> Vec<String> {
    ev.param_witnesses().as_vec().iter().map(|(n, _)| n.clone()).collect()
}

#[test]
fn new_evaluator_is_empty() {
    let ev = Evaluator::default();
    assert_eq!(ev.current_witness_index(), 0);
    assert_eq!(ev.num_witnesses_abi_len(), 0);
    assert_eq!(ev.param_witnesses().len(), 0);
    assert_eq!(ev.public_parameters().len(), 0);
    assert!(ev.opcodes().is_empty());
}

#[test]
fn witness_zero_is_never_handed_out() {
    let mut ev = Evaluator::default();
    assert_eq!(ev.add_witness_to_cs(), Witness(1));
    assert_eq!(ev.add_witness_to_cs(), Witness(2));
    assert_eq!(ev.current_witness_index(), 2);
}

#[test]
fn field_parameter_takes_one_witness_and_no_opcode() {
    let mut ev = Evaluator::default();
    ev.param_to_var("x", &field(), &AbiVisibility::Private).unwrap();
    assert_eq!(witnesses_of(&ev, "x"), vec![1]);
    assert_eq!(ev.current_witness_index(), 1);
    assert!(ev.opcodes().is_empty());
    assert_eq!(ev.public_parameters().len(), 0);
}

#[test]
fn integer_and_boolean_parameters_are_range_constrained() {
    let mut ev = Evaluator::default();
    ev.param_to_var("x", &uint(32), &AbiVisibility::Private).unwrap();
    ev.param_to_var("b", &AbiType::Boolean, &AbiVisibility::Public).unwrap();
    assert_eq!(witnesses_of(&ev, "x"), vec![1]);
    assert_eq!(witnesses_of(&ev, "b"), vec![2]);
    assert_eq!(ev.opcodes().len(), 2);
    let expected = |w: u32, bits: u32| {
        acvm::acir::circuit::Opcode::BlackBoxFuncCall(
            acvm::acir::circuit::opcodes::BlackBoxFuncCall {
                name: acvm::acir::BlackBoxFunc::RANGE,
                inputs: vec![acvm::acir::circuit::opcodes::FunctionInput {
                    witness: acvm::acir::native_types::Witness(w),
                    num_bits: bits,
                }],
                outputs: vec![],
            },
        )
    };
    assert!(ev.opcodes()[0] == expected(1, 32));
    // The boolean gets an arithmetic opcode that holds of 0 and 1 alone.
    let b = acvm::acir::native_types::Expression::from(acvm::acir::native_types::Witness(2));
    let b_minus_one = b.clone() - acvm::FieldElement::one();
    assert!(ev.opcodes()[1] == acvm::acir::circuit::Opcode::Arithmetic(&b * &b_minus_one));
    assert!(ev.public_parameters().contains(Witness(2)));
    assert!(!ev.public_parameters().contains(Witness(1)));
}

#[test]
fn array_parameter_takes_consecutive_witnesses() {
    let mut ev = Evaluator::default();
    ev.param_to_var("a", &field(), &AbiVisibility::Private).unwrap();
    ev.param_to_var(
        "arr",
        &AbiType::Array { length: 3, typ: Box::new(uint(8)) },
        &AbiVisibility::Public,
    ).unwrap();
    assert_eq!(witnesses_of(&ev, "arr"), vec![2, 3, 4]);
    assert_eq!(ev.opcodes().len(), 3);
    assert_eq!(ev.public_parameters().to_vec(), vec![Witness(2), Witness(3), Witness(4)]);
}

#[test]
fn array_of_fields_has_no_range_constraints() {
    let mut ev = Evaluator::default();
    ev.param_to_var("arr", &AbiType::Array { length: 4, typ: Box::new(field()) }, &AbiVisibility::Private).unwrap();
    assert_eq!(witnesses_of(&ev, "arr"), vec![1, 2, 3, 4]);
    assert!(ev.opcodes().is_empty());
}

#[test]
fn array_of_structs_takes_one_witness_per_element() {
    let mut ev = Evaluator::default();
    let elem = strukt(vec![("a", field()), ("b", field())]);
    ev.param_to_var("arr", &AbiType::Array { length: 2, typ: Box::new(elem) }, &AbiVisibility::Private).unwrap();
    assert_eq!(witnesses_of(&ev, "arr"), vec![1, 2]);
}

#[test]
fn string_parameter_is_bytes() {
    let mut ev = Evaluator::default();
    ev.param_to_var("s", &AbiType::String { length: 2 }, &AbiVisibility::Private).unwrap();
    assert_eq!(witnesses_of(&ev, "s"), vec![1, 2]);
    assert_eq!(ev.opcodes().len(), 2);
}

#[test]
fn struct_fields_take_witnesses_in_name_order() {
    let mut ev = Evaluator::default();
    ev.param_to_var("p", &strukt(vec![("b", field()), ("a", uint(16))]), &AbiVisibility::Private).unwrap();
    // `p.a` comes before `p.b`, whatever the order of the declaration.
    assert_eq!(witnesses_of(&ev, "p"), vec![1, 2]);
    assert_eq!(ev.opcodes().len(), 1);
}

#[test]
fn struct_field_named_twice_counts_once() {
    let mut ev = Evaluator::default();
    ev.param_to_var("p", &strukt(vec![("a", field()), ("a", AbiType::Boolean)]), &AbiVisibility::Private).unwrap();
    assert_eq!(witnesses_of(&ev, "p"), vec![1]);
    assert_eq!(ev.current_witness_index(), 1);
    assert_eq!(ev.opcodes().len(), 1);
}

#[test]
fn nested_struct_witnesses_follow_full_names() {
    // Allocation visits `p.a` (a struct, giving `p.a.z`) before `p.a-b`, but the
    // parameter's witnesses come in the order of the full names: `p.a-b` < `p.a.z`.
    let mut ev = Evaluator::default();
    let inner = strukt(vec![("z", field())]);
    ev.param_to_var("p", &strukt(vec![("a", inner), ("a-b", field())]), &AbiVisibility::Public).unwrap();
    assert_eq!(witnesses_of(&ev, "p"), vec![2, 1]);
    assert_eq!(ev.public_parameters().to_vec(), vec![Witness(1), Witness(2)]);
}

#[test]
fn parameters_are_recorded_by_name() {
    let mut ev = Evaluator::default();
    ev.parse_abi_alt(&vec![
        param("z", field(), AbiVisibility::Private),
        param("y", uint(8), AbiVisibility::Public),
    ]);
    assert_eq!(names(&ev), vec!["y".to_string(), "z".to_string()]);
    assert_eq!(witnesses_of(&ev, "z"), vec![1]);
    assert_eq!(witnesses_of(&ev, "y"), vec![2]);
}

#[test]
fn parse_abi_records_the_number_of_abi_witnesses() {
    let mut ev = Evaluator::default();
    ev.parse_abi_alt(&vec![
        param("x", field(), AbiVisibility::Private),
        param("arr", AbiType::Array { length: 3, typ: Box::new(field()) }, AbiVisibility::Public),
    ]);
    assert_eq!(ev.current_witness_index(), 4);
    assert_eq!(ev.num_witnesses_abi_len(), 4);
}

#[test]
fn private_inputs_are_those_of_private_parameters() {
    let mut ev = Evaluator::default();
    ev.parse_abi_alt(&vec![
        param("x", field(), AbiVisibility::Private),
        param("y", field(), AbiVisibility::Public),
    ]);
    assert!(ev.is_private_abi_input(Witness(1)));
    assert!(!ev.is_private_abi_input(Witness(2)));
    let later = ev.add_witness_to_cs();
    assert_eq!(later, Witness(3));
    assert!(!ev.is_private_abi_input(later));
}

#[test]
fn intermediate_variable_is_a_fresh_witness_with_one_opcode() {
    let mut ev = Evaluator::default();
    ev.param_to_var("x", &field(), &AbiVisibility::Private).unwrap();
    let gate = acvm::acir::native_types::Expression::from(acvm::acir::native_types::Witness(1));
    let w = ev.create_intermediate_variable(gate.clone());
    assert_eq!(w, Witness(2));
    assert_eq!(ev.current_witness_index(), 2);
    assert_eq!(ev.opcodes().len(), 1);
    let expected = &gate - acvm::acir::native_types::Witness(2);
    assert!(ev.opcodes()[0] == acvm::acir::circuit::Opcode::Arithmetic(expected));
}

#[test]
fn circuit_takes_the_evaluator_state() {
    let mut ev = Evaluator::default();
    ev.parse_abi_alt(&vec![
        param("x", field(), AbiVisibility::Public),
        param("y", uint(8), AbiVisibility::Private),
    ]);
    ev.push_return_value(Witness(2));
    ev.push_return_value(Witness(1));
    ev.push_return_value(Witness(2));
    let signature = (vec![param("x", field(), AbiVisibility::Public)], Some(field()));
    let (circuit, abi) = ev.into_circuit(signature);
    assert_eq!(circuit.current_witness_index, 2);
    assert_eq!(circuit.opcodes.len(), 1);
    assert_eq!(circuit.public_parameters.indices(), vec![1]);
    assert_eq!(circuit.return_values.indices(), vec![1, 2]);
    assert_eq!(abi.return_witnesses, vec![Witness(2), Witness(1), Witness(2)]);
    assert_eq!(abi.parameters.len(), 1);
    assert!(matches!(abi.return_type, Some(AbiType::Field)));
    assert_eq!(abi.param_witnesses.len(), 2);
}

#[test]
fn compile_error_is_reported_without_span() {
    let ev = Evaluator::default();
    let (_, abi) = ev.into_circuit((vec![], None));
    let failed = Err(acvm::compiler::CompileError::UnsupportedBlackBox(acvm::acir::BlackBoxFunc::AES));
    match finish_circuit(failed, abi) {
        Err(RuntimeErrorKind::Spanless(message)) => {
            assert_eq!(message, "produced an acvm compile error")
        }
        Ok(_) => panic!("expected an error"),
        Err(other) => panic!("expected the compile error, got {:?}", other),
    }
}

#[test]
fn compiled_circuit_is_returned_with_the_abi() {
    let ev = Evaluator::default();
    let (circuit, abi) = ev.into_circuit((vec![], None));
    let compiled = acvm::compiler::compile(
        circuit,
        acvm::Language::PLONKCSat { width: 3 },
        |_: &acvm::acir::circuit::Opcode| true,
    );
    let (c, abi) = finish_circuit(compiled, abi).unwrap();
    assert!(c.opcodes.is_empty());
    assert!(abi.return_type.is_none());
}

#[test]
fn pushed_opcodes_and_return_values_keep_their_order() {
    let mut ev = Evaluator::default();
    let a = acvm::acir::circuit::Opcode::Arithmetic(acvm::acir::native_types::Expression::default());
    let b = acvm::acir::circuit::Opcode::Arithmetic(acvm::acir::native_types::Expression::one());
    ev.push_opcode(a.clone());
    ev.push_opcode(b.clone());
    assert!(ev.opcodes()[0] == a);
    assert!(ev.opcodes()[1] == b);
    ev.push_return_value(Witness(7));
    ev.push_return_value(Witness(3));
    assert_eq!(ev.return_values(), &vec![Witness(7), Witness(3)]);
    assert_eq!(ev.current_witness_index(), 0);
}

#[test]
fn intermediate_variable_of_a_fresh_evaluator_is_witness_one() {
    let mut ev = Evaluator::default();
    let gate = acvm::acir::native_types::Expression::default();
    let w = ev.create_intermediate_variable(gate.clone());
    assert_eq!(w, Witness(1));
    assert_eq!(ev.current_witness_index(), 1);
    let expected = &acvm::acir::native_types::Expression::default() - acvm::acir::native_types::Witness(1);
    assert!(ev.opcodes() == &vec![acvm::acir::circuit::Opcode::Arithmetic(expected)]);
    assert_eq!(ev.param_witnesses().len(), 0);
    assert_eq!(ev.public_parameters().len(), 0);
    assert!(ev.return_values().is_empty());
}

#[test]
fn k_intermediate_variables_use_indices_one_to_k() {
    let mut ev = Evaluator::default();
    for k in 1..=5u32 {
        let w = ev.create_intermediate_variable(acvm::acir::native_types::Expression::one());
        assert_eq!(w, Witness(k));
        assert_eq!(ev.current_witness_index(), k);
    }
    assert_eq!(ev.opcodes().len(), 5);
}

#[test]
fn witness_indices_are_never_handed_out_twice() {
    let mut ev = Evaluator::default();
    let first = ev.add_witness_to_cs();
    ev.param_to_var("x", &uint(8), &AbiVisibility::Public).unwrap();
    ev.create_intermediate_variable(acvm::acir::native_types::Expression::one());
    ev.push_return_value(Witness(1));
    let second = ev.add_witness_to_cs();
    assert!(first.0 < second.0);
    assert_eq!(second, Witness(4));
}

#[test]
fn abi_circuit_records_the_signature_parameters() {
    let params = vec![
        param("y", uint(8), AbiVisibility::Private),
        param("x", strukt(vec![("b", field()), ("a", field())]), AbiVisibility::Public),
        param("z", AbiType::Array { length: 2, typ: Box::new(field()) }, AbiVisibility::Public),
    ];
    let (circuit, abi) = create_abi_circuit(params, Some(field()));
    assert_eq!(circuit.current_witness_index, 5);
    assert_eq!(circuit.opcodes.len(), 1);
    assert_eq!(circuit.public_parameters.indices(), vec![2, 3, 4, 5]);
    assert!(circuit.return_values.indices().is_empty());
    let recorded: Vec<(String, Vec<u32>)> = abi
        .param_witnesses
        .as_vec()
        .iter()
        .map(|(n, ws)| (n.clone(), ws.iter().map(|w| w.0).collect()))
        .collect();
    assert_eq!(
        recorded,
        vec![
            ("x".to_string(), vec![2, 3]),
            ("y".to_string(), vec![1]),
            ("z".to_string(), vec![4, 5]),
        ]
    );
    let names: Vec<&str> = abi.parameters.iter().map(|p| p.name.as_str()).collect();
    assert_eq!(names, vec!["y", "x", "z"]);
    assert!(matches!(abi.return_type, Some(AbiType::Field)));
    assert!(abi.return_witnesses.is_empty());
}

#[test]
fn witness_counts_are_capped_past_the_limit() {
    let name = "p".to_string();
    let s = strukt(vec![
        ("a", AbiType::Array { length: 3, typ: Box::new(field()) }),
        ("b", AbiType::String { length: 4 }),
        ("a", uint(8)),
    ]);
    assert_eq!(witness_count_upto(&name, &s, 100), 5);
    assert_eq!(witness_count_upto(&name, &s, 5), 5);
    assert_eq!(witness_count_upto(&name, &s, 4), 5);
    assert_eq!(witness_count_upto(&name, &s, 2), 3);
    assert_eq!(witness_count_upto(&name, &field(), 0), 1);
    let big = AbiType::Array { length: u64::MAX, typ: Box::new(field()) };
    assert_eq!(witness_count_upto(&name, &big, 10), 11);
}

#[test]
fn abi_that_overflows_the_witness_index_is_detected() {
    let fits = vec![param("a", AbiType::Array { length: u32::MAX as u64, typ: Box::new(field()) }, AbiVisibility::Private)];
    assert!(Evaluator::default().can_take_abi(&fits));
    let mut ev = Evaluator::default();
    ev.add_witness_to_cs();
    assert!(!ev.can_take_abi(&fits));
    let too_many = vec![
        param("a", AbiType::Array { length: u32::MAX as u64 - 1, typ: Box::new(field()) }, AbiVisibility::Private),
        param("b", uint(8), AbiVisibility::Private),
        param("c", field(), AbiVisibility::Private),
    ];
    assert!(!Evaluator::default().can_take_abi(&too_many));
    assert!(Evaluator::default().can_take_abi(&vec![]));
}

fn range(w: u32, bits: u32) -> acvm::acir::circuit::Opcode {
    acvm::acir::circuit::Opcode::BlackBoxFuncCall(acvm::acir::circuit::opcodes::BlackBoxFuncCall {
        name: acvm::acir::BlackBoxFunc::RANGE,
        inputs: vec![acvm::acir::circuit::opcodes::FunctionInput {
            witness: acvm::acir::native_types::Witness(w),
            num_bits: bits,
        }],
        outputs: vec![],
    })
}

fn bool_gate(w: u32) -> acvm::acir::circuit::Opcode {
    let x = acvm::acir::native_types::Expression::from(acvm::acir::native_types::Witness(w));
    let x_minus_one = x.clone() - acvm::FieldElement::one();
    acvm::acir::circuit::Opcode::Arithmetic(&x * &x_minus_one)
}

fn is_refusal(e: &RuntimeErrorKind) -> bool {
    match e {
        RuntimeErrorKind::UnstructuredError { message } => {
            message == "All Witnesses are by default u254. Applying this type does not apply any constraints."
        }
        _ => false,
    }
}

#[test]
fn odd_width_is_split_into_remainder_and_top_bit() {
    let mut ev = Evaluator::default();
    ev.param_to_var("x", &uint(3), &AbiVisibility::Private).unwrap();
    assert_eq!(witnesses_of(&ev, "x"), vec![1]);
    // Witness 2 holds the two low bits, witness 3 the top bit.
    assert_eq!(ev.current_witness_index(), 3);
    assert_eq!(ev.opcodes().len(), 4);
    let four = acvm::FieldElement::from(4_i128);
    let split = acvm::acir::circuit::Opcode::Directive(acvm::acir::circuit::directives::Directive::Quotient {
        a: acvm::acir::native_types::Expression::from(acvm::acir::native_types::Witness(1)),
        b: acvm::acir::native_types::Expression::from_field(four),
        q: acvm::acir::native_types::Witness(3),
        r: acvm::acir::native_types::Witness(2),
        predicate: None,
    });
    assert!(ev.opcodes()[0] == split);
    assert!(ev.opcodes()[1] == range(2, 2));
    assert!(ev.opcodes()[2] == bool_gate(3));
    let r = acvm::acir::native_types::Expression::from(acvm::acir::native_types::Witness(2));
    let b = acvm::acir::native_types::Expression::from(acvm::acir::native_types::Witness(3));
    let w = acvm::acir::native_types::Expression::from(acvm::acir::native_types::Witness(1));
    let link = r.add_mul(four, &b).add_mul(-acvm::FieldElement::one(), &w);
    assert!(ev.opcodes()[3] == acvm::acir::circuit::Opcode::Arithmetic(link));
    // The next witness comes after the split.
    assert_eq!(ev.add_witness_to_cs(), Witness(4));
}

#[test]
fn width_255_splits_without_constraining_the_remainder() {
    let mut ev = Evaluator::default();
    ev.param_to_var("x", &uint(255), &AbiVisibility::Private).unwrap();
    assert_eq!(ev.current_witness_index(), 3);
    assert_eq!(ev.opcodes().len(), 3);
    assert!(ev.opcodes()[1] == bool_gate(3));
}

#[test]
fn range_as_wide_as_the_field_is_refused() {
    let mut ev = Evaluator::default();
    let e = ev.param_to_var("x", &uint(254), &AbiVisibility::Public).unwrap_err();
    assert!(is_refusal(&e));
    assert_eq!(ev.param_witnesses().len(), 0);
    assert_eq!(ev.public_parameters().len(), 0);
    assert_eq!(ev.current_witness_index(), 1);
    assert!(ev.opcodes().is_empty());
}

#[test]
fn refused_array_element_stops_at_the_first_element() {
    let mut ev = Evaluator::default();
    let arr = AbiType::Array { length: 3, typ: Box::new(uint(254)) };
    assert!(is_refusal(&ev.param_to_var("arr", &arr, &AbiVisibility::Private).unwrap_err()));
    assert_eq!(ev.current_witness_index(), 1);
    assert_eq!(ev.param_witnesses().len(), 0);
    // An empty array constrains nothing, so nothing is refused.
    let empty = AbiType::Array { length: 0, typ: Box::new(uint(254)) };
    ev.param_to_var("none", &empty, &AbiVisibility::Private).unwrap();
    assert_eq!(witnesses_of(&ev, "none"), Vec::<u32>::new());
}

#[test]
fn array_of_odd_width_integers_takes_three_witnesses_per_element() {
    let mut ev = Evaluator::default();
    ev.param_to_var("arr", &AbiType::Array { length: 2, typ: Box::new(uint(5)) }, &AbiVisibility::Private)
        .unwrap();
    assert_eq!(witnesses_of(&ev, "arr"), vec![1, 4]);
    assert_eq!(ev.current_witness_index(), 6);
    assert_eq!(ev.opcodes().len(), 8);
}

#[test]
fn refused_struct_field_stops_the_fields_after_it() {
    let mut ev = Evaluator::default();
    let s = strukt(vec![("b", uint(254)), ("a", field()), ("c", field())]);
    assert!(is_refusal(&ev.param_to_var("p", &s, &AbiVisibility::Private).unwrap_err()));
    // `p.a` and `p.b` got their witnesses; `p.c` none.
    assert_eq!(ev.current_witness_index(), 2);
    assert_eq!(ev.param_witnesses().len(), 0);
    assert!(!ev.can_take_abi(&vec![param("p", s, AbiVisibility::Private)]));
}

#[test]
fn refused_types_are_detected() {
    let name = "p".to_string();
    assert!(type_refused(&name, &uint(254)));
    assert!(!type_refused(&name, &uint(255)));
    assert!(!type_refused(&name, &AbiType::Boolean));
    assert!(type_refused(&name, &AbiType::Array { length: 1, typ: Box::new(uint(254)) }));
    assert!(!type_refused(&name, &AbiType::Array { length: 0, typ: Box::new(uint(254)) }));
    assert!(type_refused(&name, &strukt(vec![("a", field()), ("b", strukt(vec![("c", uint(254))]))])));
    // The later of two fields with one name is the one that counts.
    assert!(!type_refused(&name, &strukt(vec![("a", uint(254)), ("a", field())])));
    assert_eq!(witness_count_upto(&name, &uint(3), 100), 3);
    assert_eq!(witness_count_upto(&name, &AbiType::Array { length: 4, typ: Box::new(uint(5)) }, 100), 12);
    assert_eq!(witness_count_upto(&name, &AbiType::Array { length: 4, typ: Box::new(uint(5)) }, 11), 12);
}
