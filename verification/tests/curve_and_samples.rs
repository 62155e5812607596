use num_bigint::BigUint;
use p256::elliptic_curve::group::GroupEncoding;
use p256::elliptic_curve::sec1::ToEncodedPoint;
use p256::elliptic_curve::PrimeField;
use p256::{ProjectivePoint, Scalar};
use paas_zkp::bignat::{BigInt, BigNat};
use paas_zkp::commitment::{commit_to_point, commit_to_scalar, P256Point};
use paas_zkp::create_input::{input_for_verifyscalmul, scalmul_parameters, InputError, Party};
use paas_zkp::ec::{be_value, ECPoint, P256Commit, P256Scalar, PointCommit};
use paas_zkp::input_map::{InputMap, InputValue};
use paas_zkp::poseidon::{partial_rounds, PoseidonConstants};
use paas_zkp::sample_inputs::{
    matrix_multiply_and_conditionally_increment, prover_input_for_testfun3,
    prover_input_for_testfun4, spartan_test_matrices,
};

fn big(b: &BigNat) -> BigUint {
    let mut v = BigUint::from(0u32);
    for (i, bit) in b.bits.iter().enumerate() {
        if *bit {
            v.set_bit(i as u64, true);
        }
    }
    v
}

fn chars(s: &str) -> Vec<char> {
    s.chars().collect()
}

fn scalar_of(n: u64) -> Scalar {
    Scalar::from(n)
}

fn scalar_bytes(s: &Scalar) -> Vec<u8> {
    s.to_repr().to_vec()
}

#[test]
fn points_multiply_and_add_as_p256_does() {
    let g = ECPoint::generator();
    assert_eq!(g.bytes, ProjectivePoint::GENERATOR.to_bytes().to_vec());
    let s = P256Scalar::deserialize(&scalar_bytes(&scalar_of(12345)));
    let p = g.mul(&s);
    let expected = ProjectivePoint::GENERATOR * scalar_of(12345);
    assert_eq!(p.bytes, expected.to_bytes().to_vec());
    let q = p.add(&g);
    assert_eq!(q.bytes, (expected + ProjectivePoint::GENERATOR).to_bytes().to_vec());
    let zero = ECPoint::default();
    assert_eq!(zero.bytes, vec![0u8; 33]);
    assert!(zero.is_identity());
    assert!(!g.is_identity());
    assert_eq!(g.add(&zero).bytes, g.bytes);
}

#[test]
fn affine_coordinates_of_a_point() {
    let p = ECPoint::generator();
    let a = p.affine();
    let enc = ProjectivePoint::GENERATOR.to_affine().to_encoded_point(false);
    assert!(!a.empty);
    assert_eq!(big(&a.x), BigUint::from_bytes_be(enc.x().unwrap()));
    assert_eq!(big(&a.y), BigUint::from_bytes_be(enc.y().unwrap()));
    let i = ECPoint::default().affine();
    assert!(i.empty);
    assert_eq!(big(&i.x), BigUint::from(0u32));
}

#[test]
fn decoding_points_and_scalars() {
    let g = ProjectivePoint::GENERATOR.to_bytes().to_vec();
    assert!(ECPoint::decode(&g).is_some());
    assert_eq!(ECPoint::deserialize(&g).bytes, g);
    assert!(ECPoint::decode(&vec![0u8; 33]).is_some());
    assert!(ECPoint::decode(&g[..32].to_vec()).is_none());
    let mut bad = g.clone();
    bad[0] = 9;
    assert!(ECPoint::decode(&bad).is_none());
    let order: Vec<u8> = vec![
        0xff, 0xff, 0xff, 0xff, 0x00, 0x00, 0x00, 0x00, 0xff, 0xff, 0xff, 0xff, 0xff, 0xff, 0xff,
        0xff, 0xbc, 0xe6, 0xfa, 0xad, 0xa7, 0x17, 0x9e, 0x84, 0xf3, 0xb9, 0xca, 0xc2, 0xfc, 0x63,
        0x25, 0x51,
    ];
    assert!(P256Scalar::decode(&order).is_none());
    let mut below = order.clone();
    below[31] = 0x50;
    assert!(P256Scalar::decode(&below).is_some());
    assert_eq!(P256Scalar::deserialize(&below).bytes, below);
    assert!(P256Scalar::decode(&vec![1u8; 31]).is_none());
    assert_eq!(P256Scalar::default().bytes, vec![0u8; 32]);
    let r = P256Scalar::random();
    assert_eq!(r.bytes.len(), 32);
    assert!(P256Scalar::decode(&r.bytes).is_some());
    assert_eq!(big(&be_value(&vec![1, 0, 2])), BigUint::from(65538u32));
}

#[test]
fn commitments_to_points() {
    let g = ECPoint::generator();
    let v = P256Scalar::deserialize(&scalar_bytes(&scalar_of(7)));
    let base = g.mul(&P256Scalar::deserialize(&scalar_bytes(&scalar_of(3))));
    let c = P256Commit::new(&g, &base, &v);
    assert_eq!(big(&c.opening), BigUint::from(7u32));
    let expected = ProjectivePoint::GENERATOR * scalar_of(21) + ProjectivePoint::GENERATOR;
    assert_eq!(c.comm.bytes, expected.to_bytes().to_vec());
    let pp = [ECPoint::generator(), base];
    let pc = PointCommit::new(&g, &pp, v);
    assert_eq!(pc.comm[0].bytes, (ProjectivePoint::GENERATOR * scalar_of(7)).to_bytes().to_vec());
    assert_eq!(pc.comm[1].bytes, expected.to_bytes().to_vec());
    assert_eq!(pc.opening.bytes, scalar_bytes(&scalar_of(7)));
}

fn constants() -> PoseidonConstants {
    let mut c = Vec::new();
    let mut m = Vec::new();
    for t in 2..=5usize {
        let n = (8 + partial_rounds(t)) * t;
        c.push((0..n).map(|i| BigInt::from_nat(BigNat::from_u64((i as u64 + 3) * 104729))).collect());
        m.push(
            (0..t)
                .map(|i| (0..t).map(|j| BigInt::from_nat(BigNat::from_u64((i + 2 * j + 1) as u64))).collect())
                .collect(),
        );
    }
    PoseidonConstants { c, m }
}

fn number(map: &InputMap, key: &str) -> Option<BigUint> {
    match map.get(&chars(key)) {
        Some(InputValue::Number(n)) => Some(big(n)),
        _ => None,
    }
}

fn to_nat(x: &BigUint) -> BigNat {
    BigNat { bits: (0..x.bits()).map(|i| x.bit(i)).collect() }
}

#[test]
fn scalar_multiplication_inputs() {
    assert_eq!(scalmul_parameters(64), Some((4, 2, 257)));
    assert_eq!(scalmul_parameters(32), Some((8, 6, 257)));
    assert_eq!(scalmul_parameters(16), Some((16, 14, 257)));
    assert_eq!(scalmul_parameters(8), None);
    let consts = constants();
    let empty = input_for_verifyscalmul(Party::Verifier, 8, 5, &consts).ok().unwrap();
    assert!(empty.entries.is_empty());
    assert!(matches!(
        input_for_verifyscalmul(Party::Prover, 32, 5, &consts),
        Err(InputError::NotAvailable)
    ));
    let map = input_for_verifyscalmul(Party::Verifier, 32, 5, &consts).ok().unwrap();
    assert!(matches!(map.get(&chars("return")), Some(InputValue::Bool(true))));
    let scalar: BigUint =
        "115792089210356248762697446949407573529996955224135760342422259061068512044367"
            .parse()
            .unwrap();
    let c0 = commit_to_scalar(
        to_nat(&scalar),
        to_nat(&"52323142543543534351".parse().unwrap()),
        5,
        52,
        &consts,
    );
    assert_eq!(number(&map, "commitments.0"), Some(big(&c0)));
    let q = ProjectivePoint::GENERATOR
        * Scalar::from_repr(*p256::FieldBytes::from_slice(&scalar.to_bytes_be())).unwrap();
    let enc = q.to_affine().to_encoded_point(false);
    let point = P256Point {
        x: to_nat(&BigUint::from_bytes_be(enc.x().unwrap())),
        y: to_nat(&BigUint::from_bytes_be(enc.y().unwrap())),
        empty: false,
    };
    let c1 = commit_to_point(&point, to_nat(&"3243234546364232323222".parse().unwrap()), 32, 8, &consts);
    assert_eq!(number(&map, "commitments.1"), Some(big(&c1)));
}

#[test]
fn sample_inputs() {
    let m = prover_input_for_testfun3();
    assert_eq!(number(&m, "message"), Some(BigUint::from(4u32)));
    let m = prover_input_for_testfun4();
    assert!(matches!(m.get(&chars("a")), Some(InputValue::Literal(s)) if s.iter().collect::<String>() == "12"));
    assert!(matches!(m.get(&chars("b")), Some(InputValue::Literal(s)) if s.iter().collect::<String>() == "34"));
}

#[test]
fn matrix_product_with_increments() {
    let a: Vec<Vec<BigNat>> =
        vec![vec![BigNat::from_u64(1), BigNat::from_u64(2)], vec![BigNat::from_u64(3), BigNat::from_u64(4)]];
    let b: Vec<Vec<BigNat>> =
        vec![vec![BigNat::from_u64(5), BigNat::from_u64(6)], vec![BigNat::from_u64(7), BigNat::from_u64(8)]];
    let c = vec![vec![true, false], vec![false, true]];
    let r = matrix_multiply_and_conditionally_increment(&a, &b, &c);
    let vals: Vec<Vec<BigUint>> = r.iter().map(|row| row.iter().map(big).collect()).collect();
    let expect: Vec<Vec<BigUint>> = vec![vec![20u32, 22], vec![43, 51]]
        .into_iter()
        .map(|row| row.into_iter().map(BigUint::from).collect())
        .collect();
    assert_eq!(vals, expect);
}

#[test]
fn spartan_benchmark_matrices() {
    let (a, r) = spartan_test_matrices();
    assert_eq!(a.len(), 19);
    assert_eq!(big(&a[3][5]), BigUint::from(15u32));
    for i in 0..19u64 {
        for j in 0..19u64 {
            let mut sum: u64 = (0..19u64).map(|k| (i * k) * (k * j)).sum();
            if (i * j) % 2 == 1 {
                sum += 1;
            }
            assert_eq!(big(&r[i as usize][j as usize]), BigUint::from(sum));
        }
    }
}
