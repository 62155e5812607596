use num_bigint::BigUint;
use paas_zkp::bignat::{BigInt, BigNat};
use paas_zkp::constants::{parse_decimal, read_double_array, read_triple_array, ReadError};
use paas_zkp::field::{fe_to_bignat, mul_mod, pow5_mod, reduce, add_mod, DEFAULT_MODULUS_STR};
use paas_zkp::packing::{ceil_div, pack_vector, pack_words, zero_pad};
use paas_zkp::text::{
    contains_chars, parse_i32, parse_u8, parse_usize, split, split_any, trim, trim_class,
    usize_to_decimal, CharClass,
};

fn chars(s: &str) -> Vec<char> {
    s.chars().collect()
}

fn lines_of(s: &str) -> Vec<Vec<char>> {
    s.lines().map(chars).collect()
}

fn big(b: &BigNat) -> BigUint {
    let mut v = BigUint::from(0u32);
    for (i, bit) in b.bits.iter().enumerate() {
        if *bit {
            v.set_bit(i as u64, true);
        }
    }
    v
}

fn to_nat(x: &BigUint) -> BigNat {
    BigNat { bits: (0..x.bits()).map(|i| x.bit(i)).collect() }
}

fn dec(s: &str) -> BigUint {
    s.parse::<BigUint>().unwrap()
}

fn text(v: &[char]) -> String {
    v.iter().collect()
}

fn modulus() -> BigUint {
    dec(DEFAULT_MODULUS_STR)
}

#[test]
fn ceil_div_rounds_up() {
    assert_eq!(ceil_div(10, 3), 4);
    assert_eq!(ceil_div(9, 3), 3);
    assert_eq!(ceil_div(0, 5), 0);
    assert_eq!(ceil_div(48, 31), 2);
    assert_eq!(ceil_div(1, 1), 1);
}

#[test]
fn pack_words_is_little_endian_base_256() {
    let v = vec![BigNat::from_u64(1), BigNat::from_u64(2), BigNat::from_u64(3)];
    assert_eq!(big(&pack_words(&v)), BigUint::from(1u32 + 2 * 256 + 3 * 65536));
    let empty: Vec<BigNat> = Vec::new();
    assert_eq!(big(&pack_words(&empty)), BigUint::from(0u32));
}

#[test]
fn zero_pad_appends_zeros() {
    let v = vec![BigNat::from_u64(7), BigNat::from_u64(9)];
    let p = zero_pad(v, 5);
    let vals: Vec<BigUint> = p.iter().map(big).collect();
    let expected: Vec<BigUint> = [7u32, 9, 0, 0, 0].iter().map(|&x| BigUint::from(x)).collect();
    assert_eq!(vals, expected);
}

#[test]
fn pack_vector_groups_31_bytes() {
    let bytes: Vec<u32> = (1..=40).collect();
    let v: Vec<BigNat> = bytes.iter().map(|&b| BigNat::from_u64(b as u64)).collect();
    let out = pack_vector(v, 248, 8);
    assert_eq!(out.len(), 2);
    let mut first = BigUint::from(0u32);
    for (i, b) in bytes[..31].iter().enumerate() {
        first += BigUint::from(*b) << (8 * i);
    }
    let mut second = BigUint::from(0u32);
    for (i, b) in bytes[31..].iter().enumerate() {
        second += BigUint::from(*b) << (8 * i);
    }
    assert_eq!(big(&out[0]), first);
    assert_eq!(big(&out[1]), second);
}

#[test]
fn pack_vector_with_exact_multiple() {
    let v: Vec<BigNat> = vec![BigNat::from_u64(0xab), BigNat::from_u64(0xcd)];
    let out = pack_vector(v, 16, 8);
    assert_eq!(out.len(), 1);
    assert_eq!(big(&out[0]), BigUint::from(0xcdabu32));
}

#[test]
fn bignat_arithmetic() {
    let a = to_nat(&dec("123456789012345678901234567890"));
    let b = to_nat(&dec("987654321098765432109876543210"));
    assert_eq!(big(&a.add(&b)), dec("1111111110111111111011111111100"));
    assert_eq!(
        big(&a.mul(&b)),
        dec("123456789012345678901234567890") * dec("987654321098765432109876543210")
    );
    let (q, r) = a.divmod_small(10);
    assert_eq!(big(&q), dec("12345678901234567890123456789"));
    assert_eq!(r, 0);
    let (q, r) = b.divmod_small(7);
    assert_eq!(big(&q), dec("987654321098765432109876543210") / BigUint::from(7u32));
    assert_eq!(BigUint::from(r), dec("987654321098765432109876543210") % BigUint::from(7u32));
    assert_eq!(big(&a.shl(5)), dec("123456789012345678901234567890") << 5);
    assert_eq!(big(&a.shr(40)), dec("123456789012345678901234567890") >> 40);
    assert_eq!(
        big(&a.low_bits(40)),
        dec("123456789012345678901234567890") % (BigUint::from(1u32) << 40)
    );
    assert!(BigNat::zero().is_zero());
    assert!(BigNat { bits: vec![false, false] }.is_zero());
    assert!(!a.is_zero());
    assert_eq!(big(&BigNat::from_u64(u64::MAX)), BigUint::from(u64::MAX));
}

#[test]
fn bignat_decimal_text() {
    let a = to_nat(&dec("12345678901234567890123"));
    assert_eq!(text(&a.to_decimal()), "12345678901234567890123");
    assert_eq!(text(&BigNat::zero().to_decimal()), "0");
    assert_eq!(text(&BigNat::from_u64(9).to_decimal()), "9");
    assert_eq!(text(&BigNat::from_u64(10).to_decimal()), "10");
    assert_eq!(text(&usize_to_decimal(255)), "255");
}

#[test]
fn field_operations_reduce_modulo() {
    let m = modulus();
    let x = m.clone() + BigUint::from(5u32);
    assert_eq!(big(&fe_to_bignat(&reduce(&to_nat(&x)))), BigUint::from(5u32));
    let a = dec("40000000000000000000000000000000000000000000000000000000000000000000000000000");
    let b = dec("51234567890123456789012345678901234567890123456789012345678901234567890123456");
    let fa = reduce(&to_nat(&a));
    let fb = reduce(&to_nat(&b));
    assert_eq!(big(&fe_to_bignat(&add_mod(&fa, &fb))), (a.clone() + b.clone()) % m.clone());
    assert_eq!(big(&fe_to_bignat(&mul_mod(&fa, &fb))), (a.clone() * b.clone()) % m.clone());
    assert_eq!(big(&fe_to_bignat(&pow5_mod(&fa))), a.modpow(&BigUint::from(5u32), &m));
}

#[test]
fn text_helpers() {
    assert_eq!(text(&trim(&chars("  a b \t"))), "a b");
    assert_eq!(text(&trim(&chars("\u{3000}x\u{a0}"))), "x");
    assert_eq!(text(&trim_class(&chars("...[0; 7]"), CharClass::Brackets)), "0; 7");
    assert_eq!(text(&trim_class(&chars("  12,"), CharClass::NonNumber)), "12");
    assert_eq!(text(&trim_class(&chars("(-3)"), CharClass::NonNumber)), "-3");
    let parts: Vec<String> = split(&chars("a,,b"), ',').iter().map(|p| text(p)).collect();
    assert_eq!(parts, vec!["a", "", "b"]);
    let parts: Vec<String> =
        split_any(&chars("[[0; 2]; 3]"), &['[', ';', ']']).iter().map(|p| text(p)).collect();
    assert_eq!(parts, vec!["", "", "0", " 2", "", " 3", ""]);
    assert!(contains_chars(&chars("const field[3] X"), &chars("const field[")));
    assert!(!contains_chars(&chars("const field"), &chars("const field[")));
    assert!(contains_chars(&chars("abc"), &[]));
}

#[test]
fn integer_literals_as_std_reads_them() {
    assert_eq!(parse_u8(&chars("255")), Some(255));
    assert_eq!(parse_u8(&chars("+7")), Some(7));
    assert_eq!(parse_u8(&chars("256")), None);
    assert_eq!(parse_u8(&chars("")), None);
    assert_eq!(parse_u8(&chars(" 1")), None);
    assert_eq!(parse_i32(&chars("-2147483648")), Some(i32::MIN));
    assert_eq!(parse_i32(&chars("2147483647")), Some(i32::MAX));
    assert_eq!(parse_i32(&chars("2147483648")), None);
    assert_eq!(parse_i32(&chars("-")), None);
    assert_eq!(parse_i32(&chars("+0")), Some(0));
    assert_eq!(parse_usize(&chars("-0")), None);
    assert_eq!(parse_usize(&chars("007")), Some(7));
    assert_eq!(parse_usize(&chars("18446744073709551616")), None);
}

#[test]
fn decimal_integers_as_rug_reads_them() {
    let v = |s: &str| parse_decimal(&chars(s)).map(|(neg, m)| (neg, big(&m)));
    assert_eq!(v("123"), Some((false, BigUint::from(123u32))));
    assert_eq!(v(" 1 000_000 "), Some((false, BigUint::from(1000000u32))));
    assert_eq!(v("- 5"), Some((true, BigUint::from(5u32))));
    assert_eq!(v("+12"), Some((false, BigUint::from(12u32))));
    assert_eq!(v("_1"), None);
    assert_eq!(v("+-1"), None);
    assert_eq!(v("12a"), None);
    assert_eq!(v(""), None);
    assert_eq!(v("-"), None);
    assert_eq!(v("1-2"), None);
}

const CONSTANTS_FILE: &str = "\
// round constants and matrices
const field[2][4] POSEIDON_C = [
    [
        1, 2,
        3, 4
    ],
    [
        ...[0; 2]
        5, 6
    ]
];
const field[2][2][2] POSEIDON_M = [
    [
        [
            7, 8
        ],
        [0; 2]
    ],
    [
        [
            9, 10
        ],
        ...[[1; 2]; 1]
    ]
];
";

fn signed(x: &BigInt) -> i64 {
    let m: i64 = big(&x.magnitude).try_into().unwrap();
    if x.negative {
        -m
    } else {
        m
    }
}

fn values(rows: &Vec<Vec<BigInt>>) -> Vec<Vec<i64>> {
    rows.iter().map(|r| r.iter().map(signed).collect()).collect()
}

#[test]
fn reads_round_constants() {
    let rows = read_double_array(&lines_of(CONSTANTS_FILE)).unwrap();
    assert_eq!(values(&rows), vec![vec![1, 2, 3, 4], vec![0, 0, 5, 6]]);
}

#[test]
fn reads_matrices() {
    let mats = read_triple_array(&lines_of(CONSTANTS_FILE)).unwrap();
    let got: Vec<Vec<Vec<i64>>> = mats.iter().map(values).collect();
    assert_eq!(got, vec![vec![vec![7, 8], vec![0, 0]], vec![vec![9, 10], vec![1, 1]]]);
}

#[test]
fn matrices_need_their_name() {
    let file = CONSTANTS_FILE.replace("POSEIDON_M", "OTHER");
    assert_eq!(read_triple_array(&lines_of(&file)).unwrap().len(), 0);
}

#[test]
fn spread_with_trailing_comma_is_skipped() {
    let file = "const field[1][3] C = [\n    [\n        ...[7; 2],\n        5\n    ]\n];\n";
    let rows = read_double_array(&lines_of(file)).unwrap();
    assert_eq!(values(&rows), vec![vec![5]]);
}

#[test]
fn bad_number_is_reported() {
    let file = "const field[1][2] C = [\n    [\n        1x2, 3\n    ]\n];\n";
    assert!(matches!(read_double_array(&lines_of(file)), Err(ReadError::BadNumber)));
}

#[test]
fn negative_constants_are_kept() {
    let file = ["const field[1][5] C = [", "  [", "    7, -8,", "    ...[0; 3]", "  ]", "];"].join("\n");
    assert_eq!(values(&read_double_array(&lines_of(&file)).unwrap()), vec![vec![7, -8, 0, 0, 0]]);
    let file = "const field[1][2] C = [\n    [\n        -4, 3\n    ]\n];\n";
    assert_eq!(values(&read_double_array(&lines_of(file)).unwrap()), vec![vec![-4, 3]]);
    let file = "const field[1][2] C = [\n    [\n        ...[-1; 2]\n    ]\n];\n";
    assert_eq!(values(&read_double_array(&lines_of(file)).unwrap()), vec![vec![-1, -1]]);
    let file = "const field[1][2] C = [\n    [\n        ...[-1; 0]\n        3\n    ]\n];\n";
    assert_eq!(values(&read_double_array(&lines_of(file)).unwrap()), vec![vec![3]]);
    let big_negative = "-123456789012345678901234567890";
    let file = format!("const field[1][1] C = [\n    [\n        {}\n    ]\n];\n", big_negative);
    let rows = read_double_array(&lines_of(&file)).unwrap();
    assert!(rows[0][0].negative);
    assert_eq!(big(&rows[0][0].magnitude), dec("123456789012345678901234567890"));
}

#[test]
fn negative_matrix_entries_are_kept() {
    let file = "const field[1][2][2] POSEIDON_M = [\n    [\n        [\n            -7, 8\n        ],\n        [0; 2]\n    ]\n];\n";
    let mats = read_triple_array(&lines_of(file)).unwrap();
    let got: Vec<Vec<Vec<i64>>> = mats.iter().map(values).collect();
    assert_eq!(got, vec![vec![vec![-7, 8], vec![0, 0]]]);
}

#[test]
fn lines_before_the_matrix_name_are_not_read() {
    let rest = lines_of(CONSTANTS_FILE);
    let mut all = lines_of("const field[1][1] X = [\n    [\n        bad!x1\n    ]\n];\n[ [ [\n");
    all.extend(rest.iter().cloned());
    let a: Vec<Vec<Vec<i64>>> = read_triple_array(&all).unwrap().iter().map(values).collect();
    let b: Vec<Vec<Vec<i64>>> = read_triple_array(&rest).unwrap().iter().map(values).collect();
    assert_eq!(a, b);
}

#[test]
fn reading_stops_at_the_next_declaration() {
    let file = "const field[1][1] C = [\n    [\n        1\n    ]\n];\nconst field[1][1] D = [\n    [\n        bad!x1\n    ]\n];\n";
    assert_eq!(values(&read_double_array(&lines_of(file)).unwrap()), vec![vec![1]]);
}

#[test]
fn decimal_text_reads_back() {
    for s in ["0", "7", "10", "255", "123456789012345678901234567890123456789"] {
        let n = to_nat(&dec(s));
        let text_form = n.to_decimal();
        assert_eq!(text(&text_form), s);
        let (neg, m) = parse_decimal(&text_form).unwrap();
        assert!(!neg);
        assert_eq!(big(&m), dec(s));
    }
}

#[test]
fn numeric_characters_beyond_ascii() {
    assert_eq!(text(&trim_class(&chars("a\u{bd}b"), CharClass::NonNumber)), "\u{bd}");
    assert_eq!(text(&trim_class(&chars("x\u{663}-"), CharClass::NonNumber)), "\u{663}-");
    let file = "const field[1][1] C = [\n    [\n        \u{bd}\n    ]\n];\n";
    assert!(matches!(read_double_array(&lines_of(file)), Err(ReadError::BadNumber)));
}
