use rand::{Rng, SeedableRng};
use num_bigint::BigUint;
use paas_zkp::bignat::{BigInt, BigNat};
use paas_zkp::commitment::{commit_to_point, commit_to_scalar, P256Point, Poseidon};
use paas_zkp::field::DEFAULT_MODULUS_STR;
use paas_zkp::input_map::{indexed_name, InputMap, InputValue};
use paas_zkp::poseidon::{partial_rounds, poseidon_hash, PoseidonConstants};
use paas_zkp::token_input::{
    byte_array_line, hash_bytes, input_poseidon_lines, issuance_values, poseidon_input_lines,
};

fn big(b: &BigNat) -> BigUint {
    let mut v = BigUint::from(0u32);
    for (i, bit) in b.bits.iter().enumerate() {
        if *bit {
            v.set_bit(i as u64, true);
        }
    }
    v
}

fn to_nat(x: &BigUint) -> BigNat {
    BigNat { bits: (0..x.bits()).map(|i| x.bit(i)).collect() }
}

fn to_int(x: &BigUint) -> BigInt {
    BigInt::from_nat(to_nat(x))
}

fn modulus() -> BigUint {
    DEFAULT_MODULUS_STR.parse::<BigUint>().unwrap()
}

fn text(v: &[char]) -> String {
    v.iter().collect()
}

fn chars(s: &str) -> Vec<char> {
    s.chars().collect()
}

/// Constants for widths 2 to 7; the values are large enough to wrap around
/// the modulus.
fn test_constants() -> (Vec<Vec<BigUint>>, Vec<Vec<Vec<BigUint>>>) {
    let m = modulus();
    let mut c = Vec::new();
    let mut mats = Vec::new();
    for t in 2..=7usize {
        let p = partial_rounds(t);
        let n = (8 + p) * t;
        let row: Vec<BigUint> = (0..n)
            .map(|i| {
                (BigUint::from(i as u64 * 1_000_003 + t as u64 * 17 + 5).pow(9)) % (m.clone() * 3u32)
            })
            .collect();
        c.push(row);
        let mat: Vec<Vec<BigUint>> = (0..t)
            .map(|i| (0..t).map(|j| BigUint::from((i as u64 + 2) * (j as u64 + 3) + t as u64)).collect())
            .collect();
        mats.push(mat);
    }
    (c, mats)
}

fn constants() -> PoseidonConstants {
    let (c, m) = test_constants();
    PoseidonConstants {
        c: c.iter().map(|r| r.iter().map(to_int).collect()).collect(),
        m: m.iter().map(|mat| mat.iter().map(|r| r.iter().map(to_int).collect()).collect()).collect(),
    }
}

/// The permutation as the circuit computes it, written directly.
fn reference_hash(inputs: &[BigUint]) -> BigUint {
    let (cs, ms) = test_constants();
    let md = modulus();
    let t = inputs.len() + 1;
    let f = 8;
    let p = partial_rounds(t);
    let c = &cs[t - 2];
    let m = &ms[t - 2];
    let mut state = vec![BigUint::from(0u32); t];
    for i in 1..t {
        state[i] = inputs[i - 1].clone();
    }
    for r in 0..f + p {
        for i in 0..t {
            state[i] = (state[i].clone() + c[r * t + i].clone()) % md.clone();
        }
        state[0] = state[0].modpow(&BigUint::from(5u32), &md);
        for i in 1..t {
            if r < f / 2 || r >= f / 2 + p {
                state[i] = state[i].modpow(&BigUint::from(5u32), &md);
            }
        }
        let mut out = vec![BigUint::from(0u32); t];
        for i in 0..t {
            let mut acc = BigUint::from(0u32);
            for j in 0..t {
                acc = (acc + state[j].clone() * m[i][j].clone()) % md.clone();
            }
            out[i] = acc;
        }
        state = out;
    }
    state[0].clone()
}

fn pack31(bytes: &[u8]) -> Vec<BigUint> {
    bytes
        .chunks(31)
        .map(|chunk| {
            let mut v = BigUint::from(0u32);
            for (i, b) in chunk.iter().enumerate() {
                v += BigUint::from(*b) << (8 * i);
            }
            v
        })
        .collect()
}

#[test]
fn poseidon_matches_the_permutation() {
    let consts = constants();
    for n in 1..=6usize {
        let inputs: Vec<BigUint> =
            (0..n).map(|i| BigUint::from(3u32).pow(100 + i as u32) + BigUint::from(i as u32)).collect();
        let h = poseidon_hash(&inputs.iter().map(to_int).collect(), &consts);
        assert_eq!(big(&h), reference_hash(&inputs), "inputs of length {}", n);
    }
}

#[test]
fn poseidon_reduces_inputs_first() {
    let consts = constants();
    let x = BigUint::from(12345u32);
    let wrapped = x.clone() + modulus();
    let h1 = poseidon_hash(&vec![to_int(&x)], &consts);
    let h2 = poseidon_hash(&vec![to_int(&wrapped)], &consts);
    assert_eq!(big(&h1), big(&h2));
    assert!(big(&h1) < modulus());
}

#[test]
fn poseidon_takes_negative_inputs() {
    let consts = constants();
    let x = BigUint::from(12345u32);
    let below = BigInt { negative: true, magnitude: to_nat(&(modulus() - x.clone())) };
    let h1 = poseidon_hash(&vec![to_int(&x)], &consts);
    let h2 = poseidon_hash(&vec![below], &consts);
    assert_eq!(big(&h1), big(&h2));
    let minus_one = BigInt { negative: true, magnitude: BigNat::from_u64(1) };
    let h3 = poseidon_hash(&vec![minus_one, to_int(&x)], &consts);
    let top = modulus() - BigUint::from(1u32);
    assert_eq!(big(&h3), reference_hash(&[top, x]));
    assert!(big(&h3) < modulus());
}

#[test]
fn negative_round_constants_act_as_residues() {
    let consts = constants();
    let mut shifted = constants();
    let k = big(&consts.c[0][5].magnitude);
    shifted.c[0][5] = BigInt { negative: true, magnitude: to_nat(&(modulus() - k)) };
    let input = vec![to_int(&BigUint::from(99u32))];
    assert_eq!(big(&poseidon_hash(&input, &consts)), big(&poseidon_hash(&input, &shifted)));
}

#[test]
fn constants_cover_widths() {
    let consts = constants();
    assert!(consts.supports_width(2));
    assert!(consts.supports_width(7));
    assert!(!consts.supports_width(8));
    let mut short = constants();
    short.c[1].pop();
    assert!(!short.supports_width(3));
    assert!(short.supports_width(2));
}

#[test]
fn poseidon_struct_keeps_input() {
    let consts = constants();
    let input = vec![to_int(&BigUint::from(5u32)), to_int(&BigUint::from(6u32))];
    let p = Poseidon::new(input, &consts);
    assert_eq!(p.input.len(), 2);
    assert_eq!(big(&p.output), reference_hash(&[BigUint::from(5u32), BigUint::from(6u32)]));
}

#[test]
fn scalar_commitment_splits_the_scalar() {
    let consts = constants();
    let scalar = BigUint::from(3u32).pow(150);
    let opening = BigUint::from(99u32);
    // 256 % 6 != 0: shift = 6 * (43 - 2) + 4 = 250
    let h = commit_to_scalar(to_nat(&scalar), to_nat(&opening), 6, 43, &consts);
    let low = scalar.clone() % (BigUint::from(1u32) << 250);
    let high = scalar.clone() >> 250;
    assert_eq!(big(&h), reference_hash(&[opening.clone(), low, high]));
    // 256 % 8 == 0: shift = 8 * (32 - 1) = 248
    let h = commit_to_scalar(to_nat(&scalar), to_nat(&opening), 8, 32, &consts);
    let low = scalar.clone() % (BigUint::from(1u32) << 248);
    let high = scalar.clone() >> 248;
    assert_eq!(big(&h), reference_hash(&[opening, low, high]));
}

#[test]
fn point_commitment_joins_top_limbs() {
    let consts = constants();
    let x = BigUint::from(7u32).pow(90);
    let y = BigUint::from(11u32).pow(70);
    let point = P256Point { x: to_nat(&x), y: to_nat(&y), empty: false };
    let h = commit_to_point(&point, BigNat::from_u64(4), 32, 8, &consts);
    let k = 32 * 7;
    let top = (y.clone() >> k) * (BigUint::from(1u32) << 32) + (x.clone() >> k);
    let expected = reference_hash(&[
        BigUint::from(4u32),
        top,
        x % (BigUint::from(1u32) << k),
        y % (BigUint::from(1u32) << k),
    ]);
    assert_eq!(big(&h), expected);
}

#[test]
fn three_exponent_commitment() {
    let consts = constants();
    let e: Vec<BigUint> = vec![
        BigUint::from(2u32).pow(250) + 3u32,
        BigUint::from(5u32).pow(100),
        BigUint::from(2u32).pow(224) * 7u32 + 1u32,
    ];
    let exps = [to_nat(&e[0]), to_nat(&e[1]), to_nat(&e[2])];
    let h = Poseidon::commit_to_three_exp(&exps, BigNat::from_u64(8), 32, &consts);
    let low = |x: &BigUint| x.clone() % (BigUint::from(1u32) << 224);
    let high = |x: &BigUint| x.clone() >> 224;
    let remain = high(&e[0]) + (high(&e[1]) << 32) + (high(&e[2]) << 64);
    let expected =
        reference_hash(&[low(&e[0]), low(&e[1]), low(&e[2]), remain, BigUint::from(8u32)]);
    assert_eq!(big(&h), expected);
}

fn number(map: &InputMap, key: &str) -> Option<BigUint> {
    match map.get(&chars(key)) {
        Some(InputValue::Number(n)) => Some(big(n)),
        _ => None,
    }
}

#[test]
fn commitments_are_named_under_the_prefix() {
    let mut map = InputMap::new();
    let commitments = vec![BigNat::from_u64(10), BigNat::from_u64(11)];
    let openings = vec![BigNat::from_u64(20)];
    Poseidon::alloc_commitments_and_openings(&commitments, &openings, "sig", &mut map);
    assert_eq!(number(&map, "sig.commitments.0"), Some(BigUint::from(10u32)));
    assert_eq!(number(&map, "sig.commitments.1"), Some(BigUint::from(11u32)));
    assert_eq!(number(&map, "sig.openings.0"), Some(BigUint::from(20u32)));
    assert_eq!(number(&map, "sig.openings.1"), None);
    let mut map = InputMap::new();
    Poseidon::alloc_commitments(&commitments, "", &mut map);
    assert_eq!(number(&map, "commitments.1"), Some(BigUint::from(11u32)));
    assert_eq!(number(&map, ".commitments.1"), None);
}

#[test]
fn later_insert_wins() {
    let mut map = InputMap::new();
    map.insert(chars("a"), InputValue::Bool(true));
    map.insert(chars("b"), InputValue::Literal(chars("x")));
    map.insert(chars("a"), InputValue::Bool(false));
    assert!(matches!(map.get(&chars("a")), Some(InputValue::Bool(false))));
    assert!(matches!(map.get(&chars("b")), Some(InputValue::Literal(s)) if text(s) == "x"));
    assert!(map.get(&chars("c")).is_none());
    assert_eq!(text(&indexed_name(&chars("ID_A"), 12)), "ID_A.12");
}

#[test]
fn byte_arrays_are_written_as_debug_does() {
    assert_eq!(text(&byte_array_line(&vec![1, 22, 255])), format!("{:?}", [1u8, 22, 255]));
    assert_eq!(text(&byte_array_line(&vec![0])), "[0]");
    assert_eq!(text(&byte_array_line(&vec![])), "[]");
}

#[test]
fn hashing_bytes_packs_31_per_element() {
    let consts = constants();
    let bytes: Vec<u8> = (0..48).map(|i| (i * 5 + 3) as u8).collect();
    let h = hash_bytes(&bytes, &consts);
    assert_eq!(big(&h), reference_hash(&pack31(&bytes)));
    let small: Vec<u8> = vec![9, 8, 7];
    assert_eq!(big(&hash_bytes(&small, &consts)), reference_hash(&pack31(&small)));
}

#[test]
fn input_file_lines() {
    let consts = constants();
    let id_a: Vec<u8> = vec![1, 2, 3, 4, 5, 6, 7, 8];
    let id_b: Vec<u8> = vec![9, 10, 11, 12, 13, 14, 15, 16];
    let nonce: Vec<u8> = (0..32).map(|i| i as u8 * 3).collect();
    let old_nonce: Vec<u8> = (0..32).map(|i| 200 - i as u8).collect();
    let signing = vec![chars("[5, 6]"), chars("17")];
    for bit in [0u8, 1u8] {
        let lines =
            poseidon_input_lines(&id_a, signing.clone(), &id_b, &nonce, bit, &old_nonce, &consts);
        let lines: Vec<String> = lines.iter().map(|l| text(l)).collect();
        let ab: Vec<u8> = nonce.iter().chain(id_a.iter()).chain(id_b.iter()).copied().collect();
        let ba: Vec<u8> = nonce.iter().chain(id_b.iter()).chain(id_a.iter()).copied().collect();
        let chosen = if bit == 1 { reference_hash(&pack31(&ab)) } else { reference_hash(&pack31(&ba)) };
        let told: Vec<u8> = old_nonce.iter().chain(id_a.iter()).copied().collect();
        let expected = vec![
            format!("{:?}", id_a),
            "[5, 6]".to_string(),
            "17".to_string(),
            format!("{:?}", id_b),
            format!("{:?}", nonce),
            format!("{}", bit),
            chosen.to_string(),
            format!("{:?}", old_nonce),
            reference_hash(&pack31(&told)).to_string(),
        ];
        assert_eq!(lines, expected);
    }
}

#[test]
fn seeded_identities_are_fixed() {
    let (a, b, n, o) = issuance_values();
    assert_eq!((a.len(), b.len(), n.len(), o.len()), (8, 8, 32, 32));
    let (a2, b2, n2, o2) = issuance_values();
    assert_eq!((a, b, n, o), (a2, b2, n2, o2));
}

#[test]
fn seeded_input_file_has_a_bit() {
    let consts = constants();
    let lines = input_poseidon_lines(vec![chars("x")], &consts);
    assert_eq!(lines.len(), 8);
    let bit = text(&lines[4]);
    assert!(bit == "0" || bit == "1");
    let (a, _, _, _) = issuance_values();
    assert_eq!(text(&lines[0]), format!("{:?}", a));
}

#[test]
fn seeded_identities_come_from_std_rng() {
    let draw = |seed: u64, n: usize| {
        let mut rng = rand::rngs::StdRng::seed_from_u64(seed);
        let mut buf = vec![0u8; n];
        rng.fill(&mut buf[..]);
        buf
    };
    let (a, b, n, o) = issuance_values();
    assert_eq!(a, draw(42, 8));
    assert_eq!(b, draw(100, 8));
    assert_eq!(n, draw(101, 32));
    assert_eq!(o, draw(153, 32));
    assert_ne!(a, vec![0u8; 8]);
}
