//! Inputs of the small sample circuits and of the Spartan benchmark.
use vstd::prelude::*;
use crate::bignat::BigNat;
use crate::poseidon::nats_val;
use crate::input_map::{InputMap, InputValue};
use crate::text::str_chars;

verus! {

/// Values of a matrix of natural numbers.
pub open spec fn rows_val(v: Seq<Vec<BigNat>>) -> Seq<Seq<int>> {
    Seq::new(v.len(), |i: int| nats_val(v[i]@))
}

/// Inputs of the sample circuit with one message: the number 4.
pub fn prover_input_for_testfun3() -> (r: InputMap)
    ensures
        r@ == Map::<Seq<char>, crate::input_map::FieldInput>::empty().insert(
            "message"@,
            crate::input_map::FieldInput::Number(4),
        ),
{
    let mut input_map = InputMap::new();
    input_map.insert(str_chars("message"), InputValue::Number(BigNat::from_u64(4)));
    input_map
}

/// Inputs of the sample circuit with two field inputs: `a` is 12 and `b` is 34.
pub fn prover_input_for_testfun4() -> (r: InputMap)
    ensures
        r@ == Map::<Seq<char>, crate::input_map::FieldInput>::empty().insert(
            "a"@,
            crate::input_map::FieldInput::Literal("12"@),
        ).insert("b"@, crate::input_map::FieldInput::Literal("34"@)),
{
    let mut input_map = InputMap::new();
    input_map.insert(str_chars("a"), InputValue::Literal(str_chars("12")));
    input_map.insert(str_chars("b"), InputValue::Literal(str_chars("34")));
    input_map
}

// ---------------------------------------------------------------------------
// Matrix product for the Spartan benchmark.
// ---------------------------------------------------------------------------

/// `sum_{k' < k} a[i][k'] * b[k'][j]`.
pub open spec fn dot_col(a: Seq<Seq<int>>, b: Seq<Seq<int>>, i: int, j: int, k: int) -> int
    decreases k,
{
    if k <= 0 {
        0
    } else {
        dot_col(a, b, i, j, k - 1) + a[i][k - 1] * b[k - 1][j]
    }
}

/// The `p x p` product `a * b`, plus one at every position where `c` is set.
pub open spec fn product_plus(a: Seq<Seq<int>>, b: Seq<Seq<int>>, c: Seq<Seq<bool>>, p: int) -> Seq<
    Seq<int>,
> {
    Seq::new(
        p as nat,
        |i: int|
            Seq::new(
                p as nat,
                |j: int|
                    dot_col(a, b, i, j, p) + if c[i][j] {
                        1int
                    } else {
                        0int
                    },
            ),
    )
}

/// `m` has at least `p` rows, each of at least `p` entries.
pub open spec fn covers<T>(m: Seq<Seq<T>>, p: int) -> bool {
    m.len() >= p && forall|i: int| 0 <= i < p ==> #[trigger] m[i].len() >= p
}

/// Views of a matrix of flags.
pub open spec fn flags_view(c: Seq<Vec<bool>>) -> Seq<Seq<bool>> {
    Seq::new(c.len(), |i: int| c[i]@)
}

/// The product `a * b` of the square matrices of size `a.len()`, plus one at
/// every position where `c` is set.
pub fn matrix_multiply_and_conditionally_increment(
    a: &Vec<Vec<BigNat>>,
    b: &Vec<Vec<BigNat>>,
    c: &Vec<Vec<bool>>,
) -> (r: Vec<Vec<BigNat>>)
    requires
        covers(rows_val(a@), a@.len() as int),
        covers(rows_val(b@), a@.len() as int),
        covers(flags_view(c@), a@.len() as int),
    ensures
        rows_val(r@) == product_plus(rows_val(a@), rows_val(b@), flags_view(c@), a@.len() as int),
{
    let p = a.len();
    let ghost av = rows_val(a@);
    let ghost bv = rows_val(b@);
    let ghost cv = flags_view(c@);
    let ghost expected = product_plus(av, bv, cv, p as int);
    let mut out: Vec<Vec<BigNat>> = Vec::new();
    let mut i: usize = 0;
    while i < p
        invariant
            i <= p,
            p == a@.len(),
            av == rows_val(a@),
            bv == rows_val(b@),
            cv == flags_view(c@),
            expected == product_plus(av, bv, cv, p as int),
            covers(av, p as int),
            covers(bv, p as int),
            covers(cv, p as int),
            rows_val(out@) == expected.take(i as int),
        decreases p - i,
    {
        proof {
            assert(av[i as int].len() >= p);
            assert(cv[i as int].len() >= p);
        }
        let mut row: Vec<BigNat> = Vec::new();
        let mut j: usize = 0;
        while j < p
            invariant
                i < p,
                j <= p,
                p == a@.len(),
                av == rows_val(a@),
                bv == rows_val(b@),
                cv == flags_view(c@),
                expected == product_plus(av, bv, cv, p as int),
                covers(av, p as int),
                covers(bv, p as int),
                covers(cv, p as int),
                crate::poseidon::nats_val(row@) == expected[i as int].take(j as int),
            decreases p - j,
        {
            let mut acc = BigNat::zero();
            let mut k: usize = 0;
            while k < p
                invariant
                    i < p,
                    j < p,
                    k <= p,
                    p == a@.len(),
                    av == rows_val(a@),
                    bv == rows_val(b@),
                    covers(av, p as int),
                    covers(bv, p as int),
                    acc@ == dot_col(av, bv, i as int, j as int, k as int),
                decreases p - k,
            {
                proof {
                    assert(av[i as int].len() >= p);
                    assert(bv[k as int].len() >= p);
                    assert(av[i as int][k as int] == a@[i as int]@[k as int]@);
                    assert(bv[k as int][j as int] == b@[k as int]@[j as int]@);
                }
                let prod = a[i][k].mul(&b[k][j]);
                acc = acc.add(&prod);
                k = k + 1;
            }
            proof {
                assert(cv[i as int][j as int] == c@[i as int]@[j as int]);
            }
            if c[i][j] {
                acc = acc.add(&BigNat::from_u64(1));
            }
            let ghost before = row@;
            proof {
                assert(acc@ == expected[i as int][j as int]);
            }
            row.push(acc);
            proof {
                assert(crate::poseidon::nats_val(row@) =~= crate::poseidon::nats_val(before).push(
                    expected[i as int][j as int],
                ));
                assert(expected[i as int].take(j + 1) =~= expected[i as int].take(j as int).push(
                    expected[i as int][j as int],
                ));
            }
            j = j + 1;
        }
        let ghost before = out@;
        proof {
            assert(expected[i as int].take(p as int) =~= expected[i as int]);
        }
        out.push(row);
        proof {
            assert(rows_val(out@) =~= rows_val(before).push(expected[i as int]));
            assert(expected.take(i + 1) =~= expected.take(i as int).push(expected[i as int]));
        }
        i = i + 1;
    }
    proof {
        assert(expected.take(p as int) =~= expected);
    }
    out
}

/// The matrix of the Spartan benchmark: entry `(i, j)` is `i * j`.
pub open spec fn bench_matrix(p: int) -> Seq<Seq<int>> {
    Seq::new(p as nat, |i: int| Seq::new(p as nat, |j: int| i * j))
}

/// The flags of the Spartan benchmark: set where `i * j` is odd.
pub open spec fn bench_flags(p: int) -> Seq<Seq<bool>> {
    Seq::new(p as nat, |i: int| Seq::new(p as nat, |j: int| (i * j) % 2 == 1))
}

/// The matrix `A` of the Spartan benchmark (size 19) and the expected result
/// `A * A`, plus one where `i * j` is odd.
pub fn spartan_test_matrices() -> (r: (Vec<Vec<BigNat>>, Vec<Vec<BigNat>>))
    ensures
        rows_val(r.0@) == bench_matrix(19),
        rows_val(r.1@) == product_plus(bench_matrix(19), bench_matrix(19), bench_flags(19), 19),
{
    let p: usize = 19;
    let mut matrix: Vec<Vec<BigNat>> = Vec::new();
    let mut flags: Vec<Vec<bool>> = Vec::new();
    let mut i: usize = 0;
    while i < p
        invariant
            i <= p,
            p == 19,
            rows_val(matrix@) == bench_matrix(19).take(i as int),
            flags_view(flags@) == bench_flags(19).take(i as int),
        decreases p - i,
    {
        let mut row: Vec<BigNat> = Vec::new();
        let mut frow: Vec<bool> = Vec::new();
        let mut j: usize = 0;
        while j < p
            invariant
                i < p,
                j <= p,
                p == 19,
                crate::poseidon::nats_val(row@) == bench_matrix(19)[i as int].take(j as int),
                frow@ == bench_flags(19)[i as int].take(j as int),
            decreases p - j,
        {
            assert(i * j < 400) by (nonlinear_arith)
                requires
                    i < 19,
                    j < 19,
            ;
            let v = (i * j) as u64;
            let ghost before = row@;
            let ghost fbefore = frow@;
            row.push(BigNat::from_u64(v));
            frow.push(v % 2 == 1);
            proof {
                assert(crate::poseidon::nats_val(row@) =~= crate::poseidon::nats_val(before).push(
                    i * j,
                ));
                assert(bench_matrix(19)[i as int].take(j + 1) =~= bench_matrix(19)[i as int].take(
                    j as int,
                ).push(i * j));
                assert(bench_flags(19)[i as int].take(j + 1) =~= bench_flags(19)[i as int].take(
                    j as int,
                ).push((i * j) % 2 == 1));
            }
            j = j + 1;
        }
        proof {
            assert(bench_matrix(19)[i as int].take(19) =~= bench_matrix(19)[i as int]);
            assert(bench_flags(19)[i as int].take(19) =~= bench_flags(19)[i as int]);
        }
        let ghost mb = matrix@;
        let ghost fb = flags@;
        matrix.push(row);
        flags.push(frow);
        proof {
            assert(rows_val(matrix@) =~= rows_val(mb).push(bench_matrix(19)[i as int]));
            assert(flags_view(flags@) =~= flags_view(fb).push(bench_flags(19)[i as int]));
            assert(bench_matrix(19).take(i + 1) =~= bench_matrix(19).take(i as int).push(
                bench_matrix(19)[i as int],
            ));
            assert(bench_flags(19).take(i + 1) =~= bench_flags(19).take(i as int).push(
                bench_flags(19)[i as int],
            ));
        }
        i = i + 1;
    }
    proof {
        assert(bench_matrix(19).take(19) =~= bench_matrix(19));
        assert(bench_flags(19).take(19) =~= bench_flags(19));
    }
    let result = matrix_multiply_and_conditionally_increment(&matrix, &matrix, &flags);
    (matrix, result)
}

} // verus!
