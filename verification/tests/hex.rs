use noirc_evaluator::circuit::{acir_hash_artifact, is_writable, try_acir_hash_artifact};
use noirc_evaluator::errors::HexError;
use noirc_evaluator::evaluator::Evaluator;
use noirc_evaluator::hex::{decode_hex_artifact, encode_hex_artifact};

#[test]
fn encodes_lowercase_two_digits_per_byte() {
    assert_eq!(encode_hex_artifact(&[0x0f, 0xa0, 0x00, 0xff]), b"0fa000ff".to_vec());
    assert_eq!(encode_hex_artifact(b"foobar"), b"666f6f626172".to_vec());
    assert_eq!(encode_hex_artifact(&[]), Vec::<u8>::new());
}

#[test]
fn decodes_either_case() {
    assert_eq!(decode_hex_artifact(b"0FA0"), Ok(vec![0x0f, 0xa0]));
    assert_eq!(decode_hex_artifact(b"0fA0"), Ok(vec![0x0f, 0xa0]));
    assert_eq!(decode_hex_artifact(b""), Ok(vec![]));
}

#[test]
fn odd_length_is_refused_first() {
    assert_eq!(decode_hex_artifact(b"abc"), Err(HexError::OddLength));
    assert_eq!(decode_hex_artifact(b"zzz"), Err(HexError::OddLength));
}

#[test]
fn first_invalid_character_is_reported() {
    assert_eq!(decode_hex_artifact(b"zz"), Err(HexError::InvalidHexCharacter { c: 'z', index: 0 }));
    assert_eq!(decode_hex_artifact(b"0g1h"), Err(HexError::InvalidHexCharacter { c: 'g', index: 1 }));
    assert_eq!(decode_hex_artifact(b"00\n0"), Err(HexError::InvalidHexCharacter { c: '\n', index: 2 }));
}

#[test]
fn written_artifact_reads_back() {
    let proof: Vec<u8> = (0..=255u8).collect();
    let text = encode_hex_artifact(&proof);
    assert_eq!(decode_hex_artifact(&text), Ok(proof));
}

#[test]
fn acir_hash_is_sixty_four_hex_digits() {
    let (circuit, _) = Evaluator::default().into_circuit((vec![], None));
    let text = acir_hash_artifact(&circuit);
    assert_eq!(text.len(), 64);
    assert!(text.iter().all(|c| c.is_ascii_digit() || (b'a'..=b'f').contains(c)));
    assert_eq!(decode_hex_artifact(&text).unwrap().len(), 32);
    assert_eq!(acir_hash_artifact(&circuit), text);
}

#[test]
fn acir_hash_artifact_is_the_hex_of_the_circuit_hash() {
    let mut ev = Evaluator::default();
    ev.add_witness_to_cs();
    let (circuit, _) = ev.into_circuit((vec![], None));
    #[allow(deprecated)]
    let digest = acvm::hash_constraint_system(&circuit);
    assert_eq!(acir_hash_artifact(&circuit), hex::encode(digest).into_bytes());
    let (empty, _) = Evaluator::default().into_circuit((vec![], None));
    assert_ne!(acir_hash_artifact(&empty), acir_hash_artifact(&circuit));
}

fn sort_circuit(input_len: usize) -> acvm::acir::circuit::Circuit {
    let one = acvm::acir::native_types::Expression::one();
    let directive = acvm::acir::circuit::directives::Directive::PermutationSort {
        inputs: vec![vec![one.clone(); 2], vec![one; input_len]],
        tuple: 2,
        bits: vec![],
        sort_by: vec![0],
    };
    acvm::acir::circuit::Circuit {
        current_witness_index: 0,
        opcodes: vec![acvm::acir::circuit::Opcode::Directive(directive)],
        public_parameters: acvm::acir::circuit::PublicInputs(Default::default()),
        return_values: acvm::acir::circuit::PublicInputs(Default::default()),
    }
}

#[test]
fn circuit_with_a_short_sort_input_is_not_hashed() {
    let short = sort_circuit(1);
    assert!(!is_writable(&short));
    assert_eq!(try_acir_hash_artifact(&short), None);
    let full = sort_circuit(2);
    assert!(is_writable(&full));
    let text = try_acir_hash_artifact(&full).unwrap();
    #[allow(deprecated)]
    let digest = acvm::hash_constraint_system(&full);
    assert_eq!(text, hex::encode(digest).into_bytes());
}
