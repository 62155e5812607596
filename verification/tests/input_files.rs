use num_bigint::BigUint;
use paas_zkp::bignat::{BigInt, BigNat};
use paas_zkp::create_input::{
    create_prover_input, create_verifier_input, prover_lines_fit, verifier_lines_fit, ComputeType,
    InputError, PfCurve,
};
use paas_zkp::field::DEFAULT_MODULUS_STR;
use paas_zkp::input_map::{InputMap, InputValue};
use paas_zkp::pcs::{
    commit_to_id, id_line_parses, prover_input_pcs_poseidon, prover_input_pcs_sha,
    prover_input_token_revocation, verifier_input_pcs_sha, verifier_input_token_revocation,
};
use paas_zkp::poseidon::{partial_rounds, poseidon_hash, PoseidonConstants};
use paas_zkp::token_input::byte_array_line;

fn chars(s: &str) -> Vec<char> {
    s.chars().collect()
}

fn text(v: &[char]) -> String {
    v.iter().collect()
}

fn big(b: &BigNat) -> BigUint {
    let mut v = BigUint::from(0u32);
    for (i, bit) in b.bits.iter().enumerate() {
        if *bit {
            v.set_bit(i as u64, true);
        }
    }
    v
}

fn to_nat(x: &BigUint) -> BigNat {
    BigNat { bits: (0..x.bits()).map(|i| x.bit(i)).collect() }
}

fn signed_nat(v: u64) -> BigInt {
    BigInt::from_nat(BigNat::from_u64(v))
}

fn to_int(x: &BigUint) -> BigInt {
    BigInt::from_nat(to_nat(x))
}

/// Small constants for widths 2 and 3.
fn constants() -> PoseidonConstants {
    let mut c = Vec::new();
    let mut m = Vec::new();
    for t in 2..=3usize {
        let n = (8 + partial_rounds(t)) * t;
        c.push((0..n).map(|i| signed_nat((i as u64 + 1) * 7919)).collect());
        m.push(
            (0..t)
                .map(|i| (0..t).map(|j| signed_nat((i * t + j + 1) as u64)).collect())
                .collect(),
        );
    }
    PoseidonConstants { c, m }
}

fn literal(map: &InputMap, key: &str) -> Option<String> {
    match map.get(&chars(key)) {
        Some(InputValue::Literal(s)) => Some(text(s)),
        _ => None,
    }
}

fn number(map: &InputMap, key: &str) -> Option<BigUint> {
    match map.get(&chars(key)) {
        Some(InputValue::Number(n)) => Some(big(n)),
        _ => None,
    }
}

/// `n` lines: line `k` is `[k, k+1]`, or the scalar lines given.
fn lines(n: usize, scalars: &[usize]) -> Vec<Vec<char>> {
    (0..n)
        .map(|k| {
            if scalars.contains(&k) {
                chars(&format!("{}", k * 100))
            } else {
                chars(&format!("[{}, {}]", k, k + 1))
            }
        })
        .collect()
}

#[test]
fn sha_derivation_prover_input() {
    let mut ls = lines(24, &[9, 13, 16, 19, 23]);
    ls[0] = chars("[7, 8, 9]");
    let map = prover_input_pcs_sha(&ls);
    // line 20 assigns ID_A again: its items replace those of line 0
    assert_eq!(literal(&map, "ID_A.0"), Some("20".to_string()));
    assert_eq!(literal(&map, "ID_A.1"), Some(" 21".to_string()));
    assert_eq!(literal(&map, "ID_A.2"), Some(" 9".to_string()));
    assert_eq!(literal(&map, "N_ID_A.1"), Some(" 2".to_string()));
    assert_eq!(literal(&map, "H_r"), Some("900".to_string()));
    assert_eq!(literal(&map, "root"), Some("2300".to_string()));
    assert_eq!(literal(&map, "auth_path_root.0"), Some("22".to_string()));
    assert_eq!(literal(&map, "H"), None);
    let map = verifier_input_pcs_sha(&ls);
    assert_eq!(literal(&map, "blinded.0"), Some("6".to_string()));
    assert_eq!(literal(&map, "old_token.1"), Some(" 13".to_string()));
    assert_eq!(literal(&map, "root"), Some("2300".to_string()));
    assert_eq!(literal(&map, "ID_A.0"), None);
}

#[test]
fn poseidon_derivation_prover_input() {
    let ls = lines(24, &[9, 10, 12, 13, 16, 19, 23]);
    let map = prover_input_pcs_poseidon(&ls);
    assert_eq!(literal(&map, "H_r"), Some("900".to_string()));
    assert_eq!(literal(&map, "H"), Some("1000".to_string()));
    assert_eq!(literal(&map, "old_token"), Some("1200".to_string()));
    assert_eq!(literal(&map, "blinder.1"), Some(" 6".to_string()));
}

fn pack31(bytes: &[u8]) -> BigUint {
    let mut v = BigUint::from(0u32);
    for (i, b) in bytes.iter().take(31).enumerate() {
        v += BigUint::from(*b) << (8 * i);
    }
    v
}

#[test]
fn identity_commitment() {
    let consts = constants();
    let id: Vec<u8> = (1..=40).collect();
    let line = byte_array_line(&id);
    assert!(id_line_parses(&line));
    let rand = BigNat::from_u64(77);
    let c = commit_to_id(&line, &rand, &consts);
    let expected = poseidon_hash(&vec![signed_nat(77), to_int(&pack31(&id))], &consts);
    assert_eq!(big(&c), big(&expected));
    assert!(!id_line_parses(&chars("[1, 256]")));
    assert!(!id_line_parses(&chars("[1,,2]")));
    assert!(!id_line_parses(&chars("[]")));
    assert!(id_line_parses(&chars("[ 1 ,2\t]")));
}

#[test]
fn token_revocation_inputs() {
    let consts = constants();
    let mut ls = lines(11, &[0, 3, 6, 10]);
    ls[7] = chars("[3, 1, 4, 1, 5]");
    let rand = BigNat::from_u64(5);
    let map = prover_input_token_revocation(&ls, &rand, &consts);
    let id: Vec<u8> = vec![3, 1, 4, 1, 5];
    let expected = poseidon_hash(&vec![signed_nat(5), to_int(&pack31(&id))], &consts);
    assert_eq!(number(&map, "commit_ID_A"), Some(big(&expected)));
    assert_eq!(number(&map, "commit_rand"), Some(BigUint::from(5u32)));
    assert_eq!(literal(&map, "left_leaf"), Some("0".to_string()));
    assert_eq!(literal(&map, "ID_A.4"), Some(" 5".to_string()));
    let vmap = verifier_input_token_revocation(&ls, &rand, &consts);
    assert_eq!(number(&vmap, "commit_ID_A"), Some(big(&expected)));
    assert_eq!(number(&vmap, "commit_rand"), None);
    assert_eq!(literal(&vmap, "root"), Some("1000".to_string()));
}

#[test]
fn dispatch_by_circuit() {
    let consts = constants();
    let rand = BigNat::from_u64(1);
    let mut ls = lines(13, &[9, 10, 12]);
    ls[0] = chars("[10, 20]");
    assert!(prover_lines_fit(ComputeType::PcsPoseidonPreprocess, &ls, &consts));
    let r = create_prover_input(ComputeType::PcsPoseidonPreprocess, &ls, &PfCurve::T256, &rand, &consts);
    let map = r.ok().unwrap();
    let expected = poseidon_hash(&vec![signed_nat(1), to_int(&pack31(&[10, 20]))], &consts);
    assert_eq!(number(&map, "commit_ID_A"), Some(big(&expected)));
    assert_eq!(literal(&map, "H"), Some("1000".to_string()));
    assert!(matches!(
        create_prover_input(ComputeType::Sha256Ori, &ls, &PfCurve::T256, &rand, &consts),
        Err(InputError::NotAvailable)
    ));
    assert!(matches!(
        create_verifier_input(ComputeType::EddsaSigma, &ls, &PfCurve::Curve25519, &rand, &consts),
        Err(InputError::NotAvailable)
    ));
    assert!(verifier_lines_fit(ComputeType::PcsPoseidonPreprocess, &ls, &consts));
    let v = create_verifier_input(ComputeType::PcsPoseidonPreprocess, &ls, &PfCurve::T256, &rand, &consts);
    assert_eq!(number(&v.ok().unwrap(), "commit_ID_A"), Some(big(&expected)));
}

#[test]
fn short_or_malformed_files_do_not_fit() {
    let consts = constants();
    let ls = lines(5, &[]);
    assert!(!prover_lines_fit(ComputeType::PcsSha, &ls, &consts));
    assert!(!verifier_lines_fit(ComputeType::NonMember, &ls, &consts));
    let mut ls = lines(13, &[9, 10, 12]);
    ls[0] = chars("[1, x]");
    assert!(!prover_lines_fit(ComputeType::PcsShaPreprocess, &ls, &consts));
    ls[0] = chars("[1, 2]");
    ls[3] = chars("3");
    assert!(!prover_lines_fit(ComputeType::PcsShaPreprocess, &ls, &consts));
    let empty = PoseidonConstants { c: Vec::new(), m: Vec::new() };
    let ls = lines(13, &[9, 10, 12]);
    assert!(!prover_lines_fit(ComputeType::PcsPoseidonPreprocess, &ls, &empty));
    assert!(prover_lines_fit(ComputeType::PcsPoseidon, &lines(24, &[9, 10, 12, 13, 16, 19, 23]), &empty));
    assert!(prover_lines_fit(ComputeType::VerifyEcdsaSigma, &Vec::new(), &empty));
}

#[test]
fn modulus_text() {
    let m: BigUint = DEFAULT_MODULUS_STR.parse().unwrap();
    assert_eq!(m.bits(), 255);
}

/// The inputs that the verifier of `compute` reads: whole names, and names
/// whose items `name.i` it reads.
fn public_names(compute: ComputeType) -> (Vec<&'static str>, Vec<&'static str>) {
    match compute {
        ComputeType::PcsSha => (vec!["root"], vec!["blinded", "H", "old_token"]),
        ComputeType::PcsPoseidon => (vec!["H", "old_token", "root"], vec!["blinded"]),
        ComputeType::PcsPoseidonPreprocess => (vec!["H", "old_token", "commit_ID_A"], vec!["blinded"]),
        ComputeType::PcsShaPreprocess => (vec!["commit_ID_A"], vec!["blinded", "H", "old_token"]),
        _ => (vec!["root", "commit_ID_A"], vec![]),
    }
}

fn is_public(compute: ComputeType, key: &str) -> bool {
    let (whole, items) = public_names(compute);
    whole.contains(&key) || items.iter().any(|n| {
        key.strip_prefix(n).and_then(|r| r.strip_prefix('.')).map_or(false, |i| i.parse::<usize>().is_ok())
    })
}

#[test]
fn verifier_inputs_are_the_public_prover_inputs() {
    let consts = constants();
    let rand = BigNat::from_u64(9);
    let cases: Vec<(ComputeType, Vec<Vec<char>>)> = vec![
        (ComputeType::PcsSha, lines(24, &[9, 13, 16, 19, 23])),
        (ComputeType::PcsPoseidon, lines(24, &[9, 10, 12, 13, 16, 19, 23])),
        (ComputeType::PcsPoseidonPreprocess, lines(13, &[9, 10, 12])),
        (ComputeType::PcsShaPreprocess, lines(12, &[8])),
        (ComputeType::NonMember, lines(11, &[0, 3, 6, 10])),
    ];
    for (compute, ls) in cases {
        let p = create_prover_input(compute, &ls, &PfCurve::T256, &rand, &consts).ok().unwrap();
        let v = create_verifier_input(compute, &ls, &PfCurve::T256, &rand, &consts).ok().unwrap();
        let mut public_count = 0;
        for (key, value) in &p.entries {
            let k = text(key);
            if is_public(compute, &k) {
                public_count += 1;
                let got = v.get(key).unwrap_or_else(|| panic!("{:?}: {} missing", compute, k));
                assert!(same_value(got, value), "{:?}: {}", compute, k);
            } else {
                assert!(v.get(key).is_none(), "{:?}: {} is private", compute, k);
            }
        }
        assert_eq!(v.entries.len(), public_count, "{:?}", compute);
    }
}

fn same_value(a: &InputValue, b: &InputValue) -> bool {
    match (a, b) {
        (InputValue::Literal(x), InputValue::Literal(y)) => x == y,
        (InputValue::Number(x), InputValue::Number(y)) => big(x) == big(y),
        (InputValue::Bool(x), InputValue::Bool(y)) => x == y,
        _ => false,
    }
}

fn same_map(a: &InputMap, b: &InputMap) -> bool {
    a.entries.len() == b.entries.len()
        && a.entries.iter().all(|(k, v)| b.get(k).map_or(false, |w| same_value(v, w)))
}

#[test]
fn preprocessing_reads_only_the_leading_lines() {
    let consts = constants();
    let rand = BigNat::from_u64(3);
    let cases: Vec<(ComputeType, Vec<Vec<char>>)> = vec![
        (ComputeType::PcsPoseidonPreprocess, lines(13, &[9, 10, 12])),
        (ComputeType::PcsShaPreprocess, lines(12, &[8])),
    ];
    for (compute, mut ls) in cases {
        ls[0] = chars("[10, 20, 30]");
        let mut longer = ls.clone();
        longer.push(chars("not an input line"));
        longer.push(chars("[7, 8]"));
        assert!(prover_lines_fit(compute, &longer, &consts));
        let p1 = create_prover_input(compute, &ls, &PfCurve::T256, &rand, &consts).ok().unwrap();
        let p2 = create_prover_input(compute, &longer, &PfCurve::T256, &rand, &consts).ok().unwrap();
        assert!(same_map(&p1, &p2), "{:?}", compute);
        let v1 = create_verifier_input(compute, &ls, &PfCurve::T256, &rand, &consts).ok().unwrap();
        let v2 = create_verifier_input(compute, &longer, &PfCurve::T256, &rand, &consts).ok().unwrap();
        assert!(same_map(&v1, &v2), "{:?}", compute);
    }
}

#[test]
fn verifier_inputs_are_prover_inputs() {
    let consts = constants();
    let rand = BigNat::from_u64(9);
    let cases: Vec<(ComputeType, Vec<Vec<char>>)> = vec![
        (ComputeType::PcsSha, lines(24, &[9, 13, 16, 19, 23])),
        (ComputeType::PcsPoseidon, lines(24, &[9, 10, 12, 13, 16, 19, 23])),
        (ComputeType::PcsPoseidonPreprocess, lines(13, &[9, 10, 12])),
        (ComputeType::PcsShaPreprocess, lines(12, &[8])),
        (ComputeType::NonMember, lines(11, &[0, 3, 6, 10])),
    ];
    for (compute, ls) in cases {
        assert!(prover_lines_fit(compute, &ls, &consts), "{:?}", compute);
        assert!(verifier_lines_fit(compute, &ls, &consts), "{:?}", compute);
        let p = create_prover_input(compute, &ls, &PfCurve::T256, &rand, &consts).ok().unwrap();
        let v = create_verifier_input(compute, &ls, &PfCurve::T256, &rand, &consts).ok().unwrap();
        assert!(!v.entries.is_empty());
        for (key, _) in &v.entries {
            let got = p.get(key).unwrap_or_else(|| panic!("{:?}: {} missing", compute, text(key)));
            assert!(same_value(got, v.get(key).unwrap()), "{:?}: {}", compute, text(key));
        }
    }
}
