use poseidon_hash::field::FieldElement;
use poseidon_hash::poseidon::{
    classify_full_round, ConstantsTable, Poseidon, PoseidonError, PoseidonHashType,
    PoseidonParams,
};

/// A table for widths 2 and 3 with all-zero round constants and identity
/// MDS matrices: slot 1 then only passes through the full-round S-box, so
/// the digest has a closed form.
fn passthrough_table() -> ConstantsTable {
    let mut round_constants: Vec<Vec<String>> = vec![vec![], vec![], vec![], vec![]];
    let mut mds_matrices: Vec<Vec<Vec<String>>> = vec![vec![], vec![], vec![], vec![]];
    round_constants[2] = (0..130).map(|_| "0".to_string()).collect();
    mds_matrices[2] = vec![
        vec!["1".to_string(), "0".to_string()],
        vec!["0".to_string(), "1".to_string()],
    ];
    round_constants[3] = (0..195).map(|_| "0".to_string()).collect();
    mds_matrices[3] = vec![
        vec!["1".to_string(), "0".to_string(), "0".to_string()],
        vec!["0".to_string(), "1".to_string(), "0".to_string()],
        vec!["0".to_string(), "0".to_string(), "1".to_string()],
    ];
    ConstantsTable { round_constants, mds_matrices }
}

/// A table for widths 2 and 3 with varied round constants and invertible
/// mixing matrices.
fn varied_table() -> ConstantsTable {
    let mut round_constants: Vec<Vec<String>> = vec![vec![], vec![], vec![], vec![]];
    let mut mds_matrices: Vec<Vec<Vec<String>>> = vec![vec![], vec![], vec![], vec![]];
    round_constants[2] = (0..130).map(|k| (k + 1).to_string()).collect();
    mds_matrices[2] = vec![
        vec!["1".to_string(), "2".to_string()],
        vec!["3".to_string(), "5".to_string()],
    ];
    round_constants[3] = (0..195).map(|k| (2 * k + 7).to_string()).collect();
    mds_matrices[3] = vec![
        vec!["1".to_string(), "2".to_string(), "3".to_string()],
        vec!["4".to_string(), "5".to_string(), "6".to_string()],
        vec!["7".to_string(), "8".to_string(), "10".to_string()],
    ];
    ConstantsTable { round_constants, mds_matrices }
}

#[test]
fn passthrough_known_digest() {
    // Zero constants and identity mixing: slot 1 is raised to the fifth
    // power once per full round. There are 7 full rounds (0..4 and 62..65),
    // so the digest of input [2] is 2^(5^7) mod p.
    let table = passthrough_table();
    let input = vec![FieldElement::from_u64(2)];
    let mut pos = Poseidon::new(input, PoseidonHashType::ConstInputLen, &table).unwrap();
    let out = pos.hash().unwrap();
    let expected = FieldElement::from_decimal(
        "5930716354885746480315014225402032214843124135008565358210330629159308337597",
    );
    assert!(out.eq_elem(&expected));
    // The digest is slot 1 of the final state.
    assert!(out.eq_elem(&pos.state()[1]));
}

#[test]
fn hash_is_deterministic() {
    let table = varied_table();
    let input1 = vec![FieldElement::from_u64(1), FieldElement::from_u64(2)];
    let input2 = vec![FieldElement::from_u64(1), FieldElement::from_u64(2)];
    let mut a = Poseidon::new(input1, PoseidonHashType::MerkleTree, &table).unwrap();
    let mut b = Poseidon::new(input2, PoseidonHashType::MerkleTree, &table).unwrap();
    let d1 = a.hash().unwrap();
    let d2 = b.hash().unwrap();
    assert!(d1.eq_elem(&d2));
}

#[test]
fn modes_are_domain_separated() {
    let table = varied_table();
    let input1 = vec![FieldElement::from_u64(1), FieldElement::from_u64(2)];
    let input2 = vec![FieldElement::from_u64(1), FieldElement::from_u64(2)];
    let mut a = Poseidon::new(input1, PoseidonHashType::MerkleTree, &table).unwrap();
    let mut b = Poseidon::new(input2, PoseidonHashType::ConstInputLen, &table).unwrap();
    let d1 = a.hash().unwrap();
    let d2 = b.hash().unwrap();
    assert!(!d1.eq_elem(&d2));
}

#[test]
fn widths_are_separated() {
    let table = varied_table();
    let input1 = vec![FieldElement::from_u64(1)];
    let input2 = vec![FieldElement::from_u64(1), FieldElement::from_u64(2)];
    let mut a = Poseidon::new(input1, PoseidonHashType::ConstInputLen, &table).unwrap();
    let mut b = Poseidon::new(input2, PoseidonHashType::ConstInputLen, &table).unwrap();
    let d1 = a.hash().unwrap();
    let d2 = b.hash().unwrap();
    assert!(!d1.eq_elem(&d2));
}

#[test]
fn domain_tags_take_their_documented_values() {
    let table = varied_table();
    let input = vec![FieldElement::from_u64(9), FieldElement::from_u64(11)];
    let pos = Poseidon::new(input, PoseidonHashType::MerkleTree, &table).unwrap();
    // MerkleTree, n = 2: tag = 2^2 + 1 = 5.
    assert!(pos.state()[0].eq_elem(&FieldElement::from_u64(5)));
    assert!(pos.state()[1].eq_elem(&FieldElement::from_u64(9)));
    assert!(pos.state()[2].eq_elem(&FieldElement::from_u64(11)));

    let input = vec![FieldElement::from_u64(9), FieldElement::from_u64(11)];
    let pos = Poseidon::new(input, PoseidonHashType::ConstInputLen, &table).unwrap();
    // ConstInputLen, n = 2: tag = 2^64 * 2.
    let expected = FieldElement::from_decimal("36893488147419103232");
    assert!(pos.state()[0].eq_elem(&expected));
}

#[test]
fn unsupported_width_is_reported() {
    let empty = ConstantsTable { round_constants: vec![], mds_matrices: vec![] };
    let input = vec![FieldElement::from_u64(1)];
    let r = Poseidon::new(input, PoseidonHashType::ConstInputLen, &empty);
    assert!(matches!(r, Err(PoseidonError::UnsupportedWidth)));

    // An entry exists but holds too few round constants for the width.
    let mut table = varied_table();
    table.round_constants[2].pop();
    let input = vec![FieldElement::from_u64(1)];
    let r = Poseidon::new(input, PoseidonHashType::ConstInputLen, &table);
    assert!(matches!(r, Err(PoseidonError::UnsupportedWidth)));
}

#[test]
fn malformed_constant_is_reported() {
    let mut table = varied_table();
    table.round_constants[2][5] = "12x".to_string();
    let input = vec![FieldElement::from_u64(1)];
    let r = Poseidon::new(input, PoseidonHashType::ConstInputLen, &table);
    assert!(matches!(r, Err(PoseidonError::MalformedConstant)));

    let mut table = varied_table();
    table.mds_matrices[2][1][0] = String::new();
    let input = vec![FieldElement::from_u64(1)];
    let r = Poseidon::new(input, PoseidonHashType::ConstInputLen, &table);
    assert!(matches!(r, Err(PoseidonError::MalformedConstant)));
}

#[test]
fn params_slice_exactly_one_constant_per_slot_per_round() {
    let table = varied_table();
    let params = PoseidonParams::new(3, &table).unwrap();
    // 65 rounds and width 3: exactly 195 constants, no leftover, no underrun.
    assert_eq!(params.round_constants.len(), 195);
    assert_eq!(params.mds_matrix.len(), 3);
    assert_eq!(params.mds_matrix[0].len(), 3);
    assert_eq!(params.mds_matrix[2].len(), 3);
}

#[test]
fn constants_parse_to_their_decimal_values() {
    let mut table = varied_table();
    // A value one above the modulus reduces to 1.
    table.round_constants[2][0] =
        "21888242871839275222246405745257275088548364400416034343698204186575808495618"
            .to_string();
    let params = PoseidonParams::new(2, &table).unwrap();
    assert!(params.round_constants[0].eq_elem(&FieldElement::from_u64(1)));
    // Entry k of the width-2 list is the string for k + 1.
    assert!(params.round_constants[1].eq_elem(&FieldElement::from_u64(2)));
    assert!(params.mds_matrix[1][1].eq_elem(&FieldElement::from_u64(5)));
}

#[test]
fn round_classification_boundary() {
    // With 8 partial and 57 full rounds the band 4..=61 is partial.
    assert!(classify_full_round(0, 8, 57));
    assert!(classify_full_round(3, 8, 57));
    assert!(!classify_full_round(4, 8, 57));
    assert!(!classify_full_round(33, 8, 57));
    assert!(!classify_full_round(61, 8, 57));
    assert!(classify_full_round(62, 8, 57));
    assert!(classify_full_round(64, 8, 57));
}
