use vstd::prelude::*;
use vstd::arithmetic::div_mod::*;
use vstd::arithmetic::mul::*;
use crate::bignat::{BigInt, BigNat};
use crate::field::{
    Fe, modulus, pow5, add_mod, mul_mod, pow5_mod, reduce_int, fe_zero, fe_to_bignat,
    lemma_modulus_bound,
};

verus! {

/// Number of full rounds of the permutation.
pub const FULL_ROUNDS: usize = 8;

/// Sponge rate.
pub const RATE: usize = 4;

/// Sponge width.
pub const WIDTH: usize = RATE + 1;

/// Number of partial rounds for state width `t` (`2 <= t <= 9`).
pub open spec fn spec_partial_rounds(t: int) -> int {
    if t == 2 {
        56
    } else if t == 3 {
        57
    } else if t == 4 {
        56
    } else if t == 5 {
        60
    } else if t == 6 {
        60
    } else if t == 7 {
        63
    } else if t == 8 {
        64
    } else {
        63
    }
}

/// The partial rounds of the permutation, width by width: 56, 57, 56, 60,
/// 60, 63, 64 and 63 rounds for state widths 2 to 9.
pub proof fn lemma_partial_rounds_table()
    ensures
        spec_partial_rounds(2) == 56,
        spec_partial_rounds(3) == 57,
        spec_partial_rounds(4) == 56,
        spec_partial_rounds(5) == 60,
        spec_partial_rounds(6) == 60,
        spec_partial_rounds(7) == 63,
        spec_partial_rounds(8) == 64,
        spec_partial_rounds(9) == 63,
{
}

/// Number of partial rounds for state width `t`.
pub fn partial_rounds(t: usize) -> (p: usize)
    requires
        2 <= t <= 9,
    ensures
        p == spec_partial_rounds(t as int),
{
    let rounds_p: [usize; 8] = [56, 57, 56, 60, 60, 63, 64, 63];
    rounds_p[t - 2]
}

// ---------------------------------------------------------------------------
// The permutation over the integers.
// ---------------------------------------------------------------------------

/// Add-round-constants: `state[i] + c[it + i] mod modulus`.
pub open spec fn ark_spec(state: Seq<int>, c: Seq<int>, it: int) -> Seq<int> {
    Seq::new(state.len(), |i: int| (state[i] + c[it + i]) % (modulus() as int))
}

/// Whether the S-box is applied to element `i` in round `r`.
pub open spec fn sbox_applies(i: int, f: int, p: int, r: int) -> bool {
    i == 0 || r < f / 2 || r >= f / 2 + p
}

/// The S-box layer: `x^5 mod modulus` on the affected elements.
pub open spec fn sbox_spec(state: Seq<int>, f: int, p: int, r: int) -> Seq<int> {
    Seq::new(
        state.len(),
        |i: int|
            if sbox_applies(i, f, p, r) {
                pow5(state[i]) % (modulus() as int)
            } else {
                state[i]
            },
    )
}

/// `sum_{j < n} state[j] * row[j]`.
pub open spec fn dot(state: Seq<int>, row: Seq<int>, n: int) -> int
    decreases n,
{
    if n <= 0 {
        0
    } else {
        dot(state, row, n - 1) + state[n - 1] * row[n - 1]
    }
}

/// The linear layer: the matrix-vector product `m * state` modulo the modulus.
pub open spec fn mix_spec(state: Seq<int>, m: Seq<Seq<int>>) -> Seq<int> {
    Seq::new(state.len(), |i: int| dot(state, m[i], state.len() as int) % (modulus() as int))
}

/// Round `r` of the permutation.
pub open spec fn round_spec(
    state: Seq<int>,
    c: Seq<int>,
    m: Seq<Seq<int>>,
    f: int,
    p: int,
    r: int,
) -> Seq<int> {
    mix_spec(sbox_spec(ark_spec(state, c, r * state.len()), f, p, r), m)
}

/// The first `k` rounds of the permutation.
pub open spec fn rounds_spec(
    state: Seq<int>,
    c: Seq<int>,
    m: Seq<Seq<int>>,
    f: int,
    p: int,
    k: int,
) -> Seq<int>
    decreases k,
{
    if k <= 0 {
        state
    } else {
        round_spec(rounds_spec(state, c, m, f, p, k - 1), c, m, f, p, k - 1)
    }
}

/// Round constants and MDS matrices, indexed by `t - 2` for state width `t`.
pub struct PoseidonConstants {
    pub c: Vec<Vec<BigInt>>,
    pub m: Vec<Vec<Vec<BigInt>>>,
}

/// Values of a sequence of natural numbers.
pub open spec fn nats_val(v: Seq<BigNat>) -> Seq<int> {
    Seq::new(v.len(), |i: int| v[i]@ as int)
}

/// Values of a sequence of integers.
pub open spec fn ints_val(v: Seq<BigInt>) -> Seq<int> {
    Seq::new(v.len(), |i: int| v[i]@)
}

/// Values of a matrix of integers.
pub open spec fn matrix_val(v: Seq<Vec<BigInt>>) -> Seq<Seq<int>> {
    Seq::new(v.len(), |i: int| ints_val(v[i]@))
}

/// Natural numbers as integers.
pub fn nats_to_ints(v: &Vec<BigNat>) -> (r: Vec<BigInt>)
    ensures
        ints_val(r@) == nats_val(v@),
{
    let mut out: Vec<BigInt> = Vec::new();
    let mut i: usize = 0;
    while i < v.len()
        invariant
            i <= v@.len(),
            ints_val(out@) == nats_val(v@).take(i as int),
        decreases v@.len() - i,
    {
        let ghost before = ints_val(out@);
        out.push(BigInt::from_nat(v[i].copy()));
        proof {
            assert(ints_val(out@) =~= before.push(v@[i as int]@ as int));
            assert(nats_val(v@).take(i + 1) =~= nats_val(v@).take(i as int).push(v@[i as int]@ as int));
        }
        i = i + 1;
    }
    proof {
        assert(nats_val(v@).take(v@.len() as int) =~= nats_val(v@));
    }
    out
}

impl PoseidonConstants {
    /// Round constants for state width `t`.
    pub open spec fn c_for(&self, t: int) -> Seq<int> {
        ints_val(self.c@[t - 2]@)
    }

    /// MDS matrix for state width `t`.
    pub open spec fn m_for(&self, t: int) -> Seq<Seq<int>> {
        matrix_val(self.m@[t - 2]@)
    }

    /// The constants for width `t` cover all `8 + partial_rounds(t)` rounds
    /// and the matrix is at least `t x t`.
    pub open spec fn supports(&self, t: int) -> bool {
        &&& 2 <= t
        &&& t - 2 < self.c@.len()
        &&& t - 2 < self.m@.len()
        &&& self.c@[t - 2]@.len() >= (8 + spec_partial_rounds(t)) * t
        &&& self.m@[t - 2]@.len() >= t
        &&& forall|i: int| 0 <= i < t ==> #[trigger] self.m@[t - 2]@[i]@.len() >= t
    }
}

impl PoseidonConstants {
    /// Whether the constants cover state width `t`.
    pub fn supports_width(&self, t: usize) -> (r: bool)
        requires
            2 <= t <= 9,
        ensures
            r == self.supports(t as int),
    {
        let p = partial_rounds(t);
        if t - 2 >= self.c.len() || t - 2 >= self.m.len() {
            return false;
        }
        assert((8 + p) * t <= 72 * 9) by (nonlinear_arith)
            requires
                p <= 64,
                t <= 9,
        ;
        if self.c[t - 2].len() < (8 + p) * t {
            return false;
        }
        let rows = &self.m[t - 2];
        if rows.len() < t {
            return false;
        }
        let mut i: usize = 0;
        while i < t
            invariant
                i <= t,
                rows@.len() >= t,
                rows@ == self.m@[t - 2]@,
                forall|j: int| 0 <= j < i ==> #[trigger] self.m@[t - 2]@[j]@.len() >= t,
            decreases t - i,
        {
            if rows[i].len() < t {
                return false;
            }
            i = i + 1;
        }
        true
    }
}

/// The Poseidon hash of `inputs` (one to six field inputs) under `consts`:
/// element 0 of the permuted state `[0, inputs...]`.
pub open spec fn poseidon_spec(inputs: Seq<int>, consts: PoseidonConstants) -> int {
    let t = inputs.len() + 1int;
    let p = spec_partial_rounds(t);
    rounds_spec(seq![0int] + inputs, consts.c_for(t), consts.m_for(t), 8, p, 8 + p)[0]
}

// ---------------------------------------------------------------------------
// Reduction of the constants does not change the permutation.
// ---------------------------------------------------------------------------

/// `s` with every element reduced modulo the modulus.
pub open spec fn reduced(s: Seq<int>) -> Seq<int> {
    Seq::new(s.len(), |i: int| s[i] % (modulus() as int))
}

/// Every row of `m` reduced.
pub open spec fn reduced_matrix(m: Seq<Seq<int>>) -> Seq<Seq<int>> {
    Seq::new(m.len(), |i: int| reduced(m[i]))
}

proof fn lemma_ark_reduced(state: Seq<int>, c: Seq<int>, it: int)
    requires
        0 <= it,
        it + state.len() <= c.len(),
    ensures
        ark_spec(state, reduced(c), it) == ark_spec(state, c, it),
        ark_spec(reduced(state), c, it) == ark_spec(state, c, it),
{
    lemma_modulus_bound();
    let m = modulus() as int;
    assert forall|i: int| 0 <= i < state.len() implies (state[i] + reduced(c)[it + i]) % m == (
    state[i] + c[it + i]) % m by {
        lemma_add_mod_noop(state[i], c[it + i], m);
        lemma_add_mod_noop(state[i], c[it + i] % m, m);
        lemma_mod_twice(c[it + i], m);
    }
    assert forall|i: int| 0 <= i < state.len() implies (reduced(state)[i] + c[it + i]) % m == (
    state[i] + c[it + i]) % m by {
        lemma_add_mod_noop(state[i], c[it + i], m);
        lemma_add_mod_noop(state[i] % m, c[it + i], m);
        lemma_mod_twice(state[i], m);
    }
    assert(ark_spec(state, reduced(c), it) =~= ark_spec(state, c, it));
    assert(ark_spec(reduced(state), c, it) =~= ark_spec(state, c, it));
}

proof fn lemma_dot_reduced(state: Seq<int>, row: Seq<int>, n: int)
    requires
        0 <= n <= row.len(),
    ensures
        dot(state, reduced(row), n) % (modulus() as int) == dot(state, row, n) % (modulus() as int),
    decreases n,
{
    lemma_modulus_bound();
    let m = modulus() as int;
    if n > 0 {
        lemma_dot_reduced(state, row, n - 1);
        let a = dot(state, reduced(row), n - 1);
        let b = dot(state, row, n - 1);
        lemma_add_mod_noop(a, state[n - 1] * (row[n - 1] % m), m);
        lemma_add_mod_noop(b, state[n - 1] * row[n - 1], m);
        lemma_mul_mod_noop_right(state[n - 1], row[n - 1], m);
    }
}

proof fn lemma_mix_reduced(state: Seq<int>, mat: Seq<Seq<int>>)
    requires
        mat.len() >= state.len(),
        forall|i: int| 0 <= i < state.len() ==> #[trigger] mat[i].len() >= state.len(),
    ensures
        mix_spec(state, reduced_matrix(mat)) == mix_spec(state, mat),
{
    assert forall|i: int| 0 <= i < state.len() implies #[trigger] mix_spec(
        state,
        reduced_matrix(mat),
    )[i] == mix_spec(state, mat)[i] by {
        lemma_dot_reduced(state, mat[i], state.len() as int);
    }
    assert(mix_spec(state, reduced_matrix(mat)) =~= mix_spec(state, mat));
}

proof fn lemma_rounds_reduced(
    state: Seq<int>,
    c: Seq<int>,
    mat: Seq<Seq<int>>,
    f: int,
    p: int,
    k: int,
)
    requires
        0 <= k,
        k * state.len() <= c.len(),
        mat.len() >= state.len(),
        forall|i: int| 0 <= i < state.len() ==> #[trigger] mat[i].len() >= state.len(),
    ensures
        rounds_spec(state, reduced(c), reduced_matrix(mat), f, p, k) == rounds_spec(
            state,
            c,
            mat,
            f,
            p,
            k,
        ),
        rounds_spec(state, c, mat, f, p, k).len() == state.len(),
    decreases k,
{
    if k > 0 {
        assert((k - 1) * state.len() <= c.len()) by (nonlinear_arith)
            requires
                k * state.len() <= c.len(),
                k >= 1,
        ;
        lemma_rounds_reduced(state, c, mat, f, p, k - 1);
        let s = rounds_spec(state, c, mat, f, p, k - 1);
        assert((k - 1) * s.len() + s.len() <= c.len()) by (nonlinear_arith)
            requires
                k * state.len() <= c.len(),
                s.len() == state.len(),
        ;
        assert(0 <= (k - 1) * s.len()) by (nonlinear_arith)
            requires
                k >= 1,
        ;
        lemma_ark_reduced(s, c, (k - 1) * s.len());
        lemma_mix_reduced(sbox_spec(ark_spec(s, c, (k - 1) * s.len()), f, p, k - 1), mat);
    }
}

proof fn lemma_rounds_reduced_state(
    state: Seq<int>,
    c: Seq<int>,
    mat: Seq<Seq<int>>,
    f: int,
    p: int,
    k: int,
)
    requires
        1 <= k,
        k * state.len() <= c.len(),
    ensures
        rounds_spec(reduced(state), c, mat, f, p, k) == rounds_spec(state, c, mat, f, p, k),
    decreases k,
{
    if k == 1 {
        assert(state.len() <= c.len()) by (nonlinear_arith)
            requires
                k * state.len() <= c.len(),
                k == 1,
        ;
        assert(rounds_spec(reduced(state), c, mat, f, p, 0) == reduced(state));
        assert(rounds_spec(state, c, mat, f, p, 0) == state);
        lemma_ark_reduced(state, c, 0);
        assert(0 * reduced(state).len() == 0 && 0 * state.len() == 0);
        assert(ark_spec(reduced(state), c, 0int * reduced(state).len()) == ark_spec(state, c, 0int * state.len()));
    } else {
        assert((k - 1) * state.len() <= c.len()) by (nonlinear_arith)
            requires
                k * state.len() <= c.len(),
                k >= 1,
        ;
        lemma_rounds_reduced_state(state, c, mat, f, p, k - 1);
        assert(rounds_spec(reduced(state), c, mat, f, p, k) == round_spec(
            rounds_spec(reduced(state), c, mat, f, p, k - 1), c, mat, f, p, k - 1));
        assert(rounds_spec(state, c, mat, f, p, k) == round_spec(
            rounds_spec(state, c, mat, f, p, k - 1), c, mat, f, p, k - 1));
    }
}

// ---------------------------------------------------------------------------
// Executable layers.
// ---------------------------------------------------------------------------

/// Values of a sequence of residues.
pub open spec fn fes_val(s: Seq<Fe>) -> Seq<int> {
    Seq::new(s.len(), |i: int| s[i]@ as int)
}

/// Every residue is reduced and has eight limbs.
pub open spec fn all_wf(s: Seq<Fe>) -> bool {
    forall|i: int| 0 <= i < s.len() ==> #[trigger] s[i].wf()
}

fn ark(state: &Vec<Fe>, c: &Vec<Fe>, it: usize) -> (r: Vec<Fe>)
    requires
        all_wf(state@),
        all_wf(c@),
        it + state@.len() <= c@.len(),
    ensures
        all_wf(r@),
        fes_val(r@) == ark_spec(fes_val(state@), fes_val(c@), it as int),
{
    let mut out: Vec<Fe> = Vec::new();
    let n = state.len();
    let cl = c.len();
    let mut i: usize = 0;
    while i < n
        invariant
            i <= n,
            n == state@.len(),
            cl == c@.len(),
            it + n <= c@.len(),
            all_wf(state@),
            all_wf(c@),
            all_wf(out@),
            out@.len() == i,
            forall|j: int| 0 <= j < i ==> #[trigger] out@[j]@ == (state@[j]@ + c@[it + j]@) % modulus(),
        decreases n - i,
    {
        let x = add_mod(&state[i], &c[it + i]);
        out.push(x);
        i = i + 1;
    }
    proof {
        assert(fes_val(out@) =~= ark_spec(fes_val(state@), fes_val(c@), it as int));
    }
    out
}

fn sbox(state: &Vec<Fe>, f: usize, p: usize, r: usize) -> (res: Vec<Fe>)
    requires
        all_wf(state@),
        state@.len() >= 1,
        f / 2 + p <= usize::MAX,
    ensures
        all_wf(res@),
        fes_val(res@) == sbox_spec(fes_val(state@), f as int, p as int, r as int),
{
    let mut out: Vec<Fe> = Vec::new();
    out.push(pow5_mod(&state[0]));
    let n = state.len();
    let mut i: usize = 1;
    while i < n
        invariant
            1 <= i <= n,
            n == state@.len(),
            f / 2 + p <= usize::MAX,
            all_wf(state@),
            all_wf(out@),
            out@.len() == i,
            forall|j: int|
                0 <= j < i ==> #[trigger] out@[j]@ == sbox_spec(
                    fes_val(state@),
                    f as int,
                    p as int,
                    r as int,
                )[j],
        decreases n - i,
    {
        if r < f / 2 || r >= f / 2 + p {
            out.push(pow5_mod(&state[i]));
        } else {
            let x = Fe { limbs: state[i].limbs.clone() };
            proof {
                assert(state@[i as int].wf());
                assert(x.limbs@ =~= state@[i as int].limbs@);
            }
            out.push(x);
        }
        i = i + 1;
    }
    proof {
        assert(fes_val(out@) =~= sbox_spec(fes_val(state@), f as int, p as int, r as int));
    }
    out
}

fn mix(state: &Vec<Fe>, m: &Vec<Vec<Fe>>) -> (res: Vec<Fe>)
    requires
        all_wf(state@),
        m@.len() >= state@.len(),
        forall|i: int|
            0 <= i < state@.len() ==> #[trigger] m@[i]@.len() >= state@.len() && all_wf(m@[i]@),
    ensures
        all_wf(res@),
        fes_val(res@) == mix_spec(fes_val(state@), Seq::new(m@.len(), |i: int| fes_val(m@[i]@))),
{
    let ghost mv = Seq::new(m@.len(), |i: int| fes_val(m@[i]@));
    let ghost sv = fes_val(state@);
    let n = state.len();
    let mut out: Vec<Fe> = Vec::new();
    let mut i: usize = 0;
    proof {
        lemma_modulus_bound();
    }
    while i < n
        invariant
            i <= n,
            n == state@.len(),
            sv == fes_val(state@),
            mv == Seq::new(m@.len(), |i: int| fes_val(m@[i]@)),
            m@.len() >= n,
            forall|k: int| 0 <= k < n ==> #[trigger] m@[k]@.len() >= n && all_wf(m@[k]@),
            all_wf(state@),
            all_wf(out@),
            out@.len() == i,
            modulus() > 1,
            forall|k: int| 0 <= k < i ==> #[trigger] out@[k]@ == mix_spec(sv, mv)[k],
        decreases n - i,
    {
        let mut acc = fe_zero();
        let mut j: usize = 0;
        proof {
            lemma_small_mod(0, modulus());
        }
        while j < n
            invariant
                j <= n,
                i < n,
                n == state@.len(),
                sv == fes_val(state@),
                mv == Seq::new(m@.len(), |i: int| fes_val(m@[i]@)),
                m@.len() >= n,
                forall|k: int| 0 <= k < n ==> #[trigger] m@[k]@.len() >= n && all_wf(m@[k]@),
                all_wf(state@),
                acc.wf(),
                modulus() > 1,
                acc@ == dot(sv, mv[i as int], j as int) % (modulus() as int),
            decreases n - j,
        {
            assert(m@[i as int]@.len() >= n && all_wf(m@[i as int]@));
            let prod = mul_mod(&state[j], &m[i][j]);
            let next = add_mod(&acc, &prod);
            proof {
                let md = modulus() as int;
                let d = dot(sv, mv[i as int], j as int);
                assert(mv[i as int][j as int] == m@[i as int]@[j as int]@);
                assert(sv[j as int] == state@[j as int]@);
                lemma_add_mod_noop(d, sv[j as int] * mv[i as int][j as int], md);
                lemma_mod_twice(d, md);
            }
            acc = next;
            j = j + 1;
        }
        out.push(acc);
        i = i + 1;
    }
    proof {
        assert(fes_val(out@) =~= mix_spec(sv, mv));
    }
    out
}

proof fn lemma_rounds_len(state: Seq<int>, c: Seq<int>, mat: Seq<Seq<int>>, f: int, p: int, k: int)
    ensures
        rounds_spec(state, c, mat, f, p, k).len() == state.len(),
    decreases k,
{
    if k > 0 {
        lemma_rounds_len(state, c, mat, f, p, k - 1);
    }
}

/// Every value reduced modulo the modulus.
fn reduce_all(v: &Vec<BigInt>) -> (r: Vec<Fe>)
    ensures
        all_wf(r@),
        r@.len() == v@.len(),
        fes_val(r@) == reduced(ints_val(v@)),
{
    let mut out: Vec<Fe> = Vec::new();
    let mut i: usize = 0;
    while i < v.len()
        invariant
            i <= v@.len(),
            out@.len() == i,
            all_wf(out@),
            forall|j: int| 0 <= j < i ==> #[trigger] out@[j]@ == v@[j]@ % (modulus() as int),
        decreases v@.len() - i,
    {
        out.push(reduce_int(&v[i]));
        i = i + 1;
    }
    proof {
        assert(fes_val(out@) =~= reduced(ints_val(v@)));
    }
    out
}

/// Every row reduced modulo the modulus.
fn reduce_matrix(mm: &Vec<Vec<BigInt>>) -> (r: Vec<Vec<Fe>>)
    ensures
        r@.len() == mm@.len(),
        forall|i: int| 0 <= i < r@.len() ==> all_wf(#[trigger] r@[i]@),
        forall|i: int| 0 <= i < r@.len() ==> (#[trigger] r@[i]@).len() == mm@[i]@.len(),
        Seq::new(r@.len(), |i: int| fes_val(r@[i]@)) == reduced_matrix(matrix_val(mm@)),
{
    let mut out: Vec<Vec<Fe>> = Vec::new();
    let mut i: usize = 0;
    while i < mm.len()
        invariant
            i <= mm@.len(),
            out@.len() == i,
            forall|j: int| 0 <= j < i ==> all_wf(#[trigger] out@[j]@),
            forall|j: int| 0 <= j < i ==> (#[trigger] out@[j]@).len() == mm@[j]@.len(),
            forall|j: int| 0 <= j < i ==> fes_val(#[trigger] out@[j]@) == reduced(ints_val(mm@[j]@)),
        decreases mm@.len() - i,
    {
        let row = reduce_all(&mm[i]);
        out.push(row);
        i = i + 1;
    }
    proof {
        assert(Seq::new(out@.len(), |i: int| fes_val(out@[i]@)) =~= reduced_matrix(matrix_val(mm@)));
    }
    out
}

/// The Poseidon hash of one to six inputs: the permutation is applied to
/// `[0, inputs...]` and element 0 of the result is returned.
pub fn poseidon_hash(inputs: &Vec<BigInt>, consts: &PoseidonConstants) -> (r: BigNat)
    requires
        1 <= inputs@.len() <= 6,
        consts.supports(inputs@.len() + 1int),
    ensures
        r@ == poseidon_spec(ints_val(inputs@), *consts),
{
    let n = inputs.len();
    let t = n + 1;
    let f: usize = FULL_ROUNDS;
    let p = partial_rounds(t);
    let c = reduce_all(&consts.c[t - 2]);
    let m = reduce_matrix(&consts.m[t - 2]);
    let ghost cv = consts.c_for(t as int);
    let ghost mv = consts.m_for(t as int);
    let ghost init = seq![0int] + ints_val(inputs@);
    let ghost mred = Seq::new(m@.len(), |i: int| fes_val(m@[i]@));
    let mut state: Vec<Fe> = Vec::new();
    state.push(fe_zero());
    let mut i: usize = 0;
    proof {
        lemma_modulus_bound();
        lemma_small_mod(0, modulus());
        assert(mred == reduced_matrix(mv));
    }
    while i < n
        invariant
            i <= n,
            n == inputs@.len(),
            state@.len() == i + 1,
            all_wf(state@),
            state@[0]@ == 0,
            forall|j: int| 1 <= j <= i ==> #[trigger] state@[j]@ == inputs@[j - 1]@ % (modulus() as int),
        decreases n - i,
    {
        state.push(reduce_int(&inputs[i]));
        i = i + 1;
    }
    proof {
        assert(fes_val(state@) =~= reduced(init));
        assert(rounds_spec(reduced(init), reduced(cv), mred, f as int, p as int, 0) == reduced(init));
    }
    let total = f + p;
    let mut r: usize = 0;
    while r < total
        invariant
            r <= total,
            total == f + p,
            f == 8,
            p == spec_partial_rounds(t as int),
            t == n + 1,
            2 <= t <= 7,
            consts.supports(t as int),
            cv == consts.c_for(t as int),
            mv == consts.m_for(t as int),
            all_wf(c@),
            fes_val(c@) == reduced(cv),
            cv.len() == consts.c@[t - 2]@.len(),
            m@.len() == consts.m@[t - 2]@.len(),
            forall|k: int| 0 <= k < m@.len() ==> all_wf(#[trigger] m@[k]@),
            forall|k: int| 0 <= k < m@.len() ==> (#[trigger] m@[k]@).len() == consts.m@[t - 2]@[k]@.len(),
            mred == Seq::new(m@.len(), |i: int| fes_val(m@[i]@)),
            mred == reduced_matrix(mv),
            state@.len() == t,
            all_wf(state@),
            fes_val(state@) == rounds_spec(reduced(init), reduced(cv), mred, f as int, p as int, r as int),
        decreases total - r,
    {
        proof {
            assert((r + 1) * t <= (8 + p) * t) by (nonlinear_arith)
                requires
                    r + 1 <= 8 + p,
            ;
            assert(r * t + t == (r + 1) * t) by (nonlinear_arith);
            assert(r * t <= 72 * 7) by (nonlinear_arith)
                requires
                    r < 72,
                    t <= 7,
            ;
            assert(consts.c@[t - 2]@.len() >= (8 + spec_partial_rounds(t as int)) * t);
            assert(fes_val(c@).len() == c@.len());
            assert(reduced(cv).len() == cv.len());
            assert(c@.len() >= r * t + t);
            assert forall|k: int| 0 <= k < t implies #[trigger] m@[k]@.len() >= t && all_wf(m@[k]@) by {
                assert(consts.m@[t - 2]@[k]@.len() >= t);
                assert(all_wf(m@[k]@));
            }
        }
        let s1 = ark(&state, &c, r * t);
        assert(fes_val(s1@).len() == s1@.len());
        let s2 = sbox(&s1, f, p, r);
        assert(fes_val(s2@).len() == s2@.len());
        assert(consts.m@[t - 2]@.len() >= t);
        let s3 = mix(&s2, &m);
        proof {
            let prev = rounds_spec(reduced(init), reduced(cv), mred, f as int, p as int, r as int);
            assert(prev.len() == t);
            assert(round_spec(prev, reduced(cv), mred, f as int, p as int, r as int) == fes_val(s3@));
        }
        state = s3;
        r = r + 1;
    }
    proof {
        let k = (8 + p) as int;
        lemma_rounds_len(init, cv, mv, 8, p as int, k);
        assert(k * init.len() <= cv.len());
        assert(mv.len() >= init.len());
        assert forall|i: int| 0 <= i < init.len() implies #[trigger] mv[i].len() >= init.len() by {
            assert(consts.m@[t - 2]@[i]@.len() >= t);
        }
        assert(k * reduced(init).len() <= cv.len());
        assert forall|i: int| 0 <= i < reduced(init).len() implies #[trigger] mv[i].len() >= reduced(init).len() by {
            assert(consts.m@[t - 2]@[i]@.len() >= t);
        }
        lemma_rounds_reduced(reduced(init), cv, mv, 8, p as int, k);
        lemma_rounds_reduced_state(init, cv, mv, 8, p as int, k);
        assert(ints_val(inputs@).len() + 1 == t);
    }
    assert(state@[0].wf());
    fe_to_bignat(&state[0])
}

/// The digest is a reduced residue.
pub proof fn lemma_poseidon_nonneg(inputs: Seq<int>, consts: PoseidonConstants)
    requires
        1 <= inputs.len() <= 6,
        consts.supports(inputs.len() + 1int),
    ensures
        0 <= poseidon_spec(inputs, consts) < modulus(),
{
    lemma_modulus_bound();
    let t = inputs.len() + 1int;
    let p = spec_partial_rounds(t);
    let k = 8 + p;
    let s = rounds_spec(seq![0int] + inputs, consts.c_for(t), consts.m_for(t), 8, p, k - 1);
    lemma_rounds_len(seq![0int] + inputs, consts.c_for(t), consts.m_for(t), 8, p, k - 1);
    let x = sbox_spec(ark_spec(s, consts.c_for(t), (k - 1) * s.len()), 8, p, k - 1);
    lemma_mod_bound(dot(x, consts.m_for(t)[0], x.len() as int), modulus() as int);
}

/// The hash of reduced inputs is the hash of the inputs.
proof fn lemma_poseidon_reduced_inputs(inputs: Seq<int>, consts: PoseidonConstants)
    requires
        1 <= inputs.len() <= 6,
        consts.supports(inputs.len() + 1int),
    ensures
        poseidon_spec(reduced(inputs), consts) == poseidon_spec(inputs, consts),
{
    lemma_modulus_bound();
    let t = inputs.len() + 1int;
    let p = spec_partial_rounds(t);
    let k = 8 + p;
    let init = seq![0int] + inputs;
    assert(seq![0int] + reduced(inputs) =~= reduced(init)) by {
        assert(0int % (modulus() as int) == 0);
    }
    assert(consts.c_for(t).len() == consts.c@[t - 2]@.len());
    assert(k * init.len() <= consts.c_for(t).len());
    lemma_rounds_reduced_state(init, consts.c_for(t), consts.m_for(t), 8, p, k);
}

/// Inputs that agree modulo the field modulus, element by element, have the
/// same Poseidon hash.
pub proof fn lemma_poseidon_congruent_inputs(a: Seq<int>, b: Seq<int>, consts: PoseidonConstants)
    requires
        1 <= a.len() <= 6,
        a.len() == b.len(),
        consts.supports(a.len() + 1int),
        forall|i: int| 0 <= i < a.len() ==> #[trigger] (a[i] % (modulus() as int)) == b[i] % (
        modulus() as int),
    ensures
        poseidon_spec(a, consts) == poseidon_spec(b, consts),
{
    assert(reduced(a) =~= reduced(b));
    lemma_poseidon_reduced_inputs(a, consts);
    lemma_poseidon_reduced_inputs(b, consts);
}

} // verus!
