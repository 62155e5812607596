use vstd::prelude::*;
use vstd::arithmetic::power2::*;
use vstd::arithmetic::div_mod::*;
use vstd::arithmetic::mul::*;
use crate::bignat::{BigInt, BigNat};
use crate::poseidon::{PoseidonConstants, poseidon_hash, poseidon_spec, nats_val, ints_val, nats_to_ints};
use crate::input_map::{InputMap, InputValue, FieldInput, indexed_key, indexed_name};
use crate::text::str_chars;

verus! {

/// Bits of an exponent kept in each of the first three Poseidon inputs of
/// [`Poseidon::commit_to_three_exp`].
pub const FIRST_BITWIDTH: usize = 224;

/// Parameters and digest of one Poseidon hashing.
pub struct Poseidon {
    /// Input to the hashing
    pub input: Vec<BigInt>,
    /// Digest
    pub output: BigNat,
}

/// A curve point given by affine coordinates.
pub struct P256Point {
    pub x: BigNat,
    pub y: BigNat,
    pub empty: bool,
}

/// The split point of the scalar in [`commit_to_scalar`].
pub open spec fn scalar_shift(window_size: int, n_chunks: int) -> int {
    if 256int % window_size == 0 {
        window_size * (n_chunks - 1)
    } else {
        window_size * (n_chunks - 2) + 256int % window_size
    }
}

/// The inputs of [`commit_to_scalar`]: the opening, then the scalar split at
/// bit `scalar_shift(window_size, n_chunks)`.
pub open spec fn scalar_commit_inputs(scalar: nat, opening: nat, shift: nat) -> Seq<int> {
    seq![opening as int, (scalar % pow2(shift)) as int, (scalar / pow2(shift)) as int]
}

/// The inputs of [`commit_to_point`]: the opening, the top limbs of both
/// coordinates joined, then the lower limbs of `x` and of `y`.
pub open spec fn point_commit_inputs(x: nat, y: nat, opening: nat, limb_width: nat, k: nat) -> Seq<
    int,
> {
    seq![
        opening as int,
        ((y / pow2(k)) * pow2(limb_width) + x / pow2(k)) as int,
        (x % pow2(k)) as int,
        (y % pow2(k)) as int,
    ]
}

/// The inputs of [`Poseidon::commit_to_three_exp`]: the low 224 bits of each
/// exponent, the three high parts joined at 32-bit steps, then the opening.
pub open spec fn three_exp_inputs(e0: nat, e1: nat, e2: nat, opening: nat) -> Seq<int> {
    seq![
        (e0 % pow2(224)) as int,
        (e1 % pow2(224)) as int,
        (e2 % pow2(224)) as int,
        (e0 / pow2(224) + (e1 / pow2(224)) * pow2(32) + (e2 / pow2(224)) * pow2(64)) as int,
        opening as int,
    ]
}

/// `sum_{j < i} (e[j] / 2^224) * 2^(32 j)`.
pub open spec fn high_parts(e: Seq<BigNat>, i: int) -> nat
    decreases i,
{
    if i <= 0 {
        0
    } else {
        high_parts(e, i - 1) + (e[i - 1]@ / pow2(224)) * pow2((32 * (i - 1)) as nat)
    }
}

/// The prefix of the input names under `name`: empty, or `name.`.
pub open spec fn name_prefix(name: Seq<char>) -> Seq<char> {
    if name.len() == 0 {
        name
    } else {
        name + seq!['.']
    }
}

/// `m` with `name.i` assigned `values[i]` for every `i`, in order.
pub open spec fn insert_numbers(
    m: Map<Seq<char>, FieldInput>,
    name: Seq<char>,
    values: Seq<int>,
) -> Map<Seq<char>, FieldInput>
    decreases values.len(),
{
    if values.len() == 0 {
        m
    } else {
        insert_numbers(m, name, values.drop_last()).insert(
            indexed_key(name, (values.len() - 1) as nat),
            FieldInput::Number(values.last() as nat),
        )
    }
}

/// Assigns `name.i` the value `values[i]` for every `i`.
fn alloc_numbers(values: &Vec<BigNat>, name: &Vec<char>, input_map: &mut InputMap)
    ensures
        final(input_map)@ == insert_numbers(old(input_map)@, name@, nats_val(values@)),
{
    let ghost vs = nats_val(values@);
    let mut i: usize = 0;
    proof {
        assert(vs.take(0) =~= Seq::<int>::empty());
    }
    while i < values.len()
        invariant
            i <= values@.len(),
            vs == nats_val(values@),
            input_map@ == insert_numbers(old(input_map)@, name@, vs.take(i as int)),
        decreases values@.len() - i,
    {
        let key = indexed_name(name, i);
        let v = values[i].copy();
        proof {
            assert(vs.take(i + 1).drop_last() =~= vs.take(i as int));
            assert(vs.take(i + 1).last() == values@[i as int]@);
        }
        input_map.insert(key, InputValue::Number(v));
        i = i + 1;
    }
    proof {
        assert(vs.take(values@.len() as int) =~= vs);
    }
}

/// `prefix` followed by `word`.
fn joined(prefix: &Vec<char>, word: &str) -> (r: Vec<char>)
    ensures
        r@ == prefix@ + word@,
{
    let mut out = prefix.clone();
    let w = str_chars(word);
    let ghost base = prefix@;
    proof {
        assert(out@ =~= base);
    }
    let mut i: usize = 0;
    while i < w.len()
        invariant
            i <= w@.len(),
            out@ == base + w@.take(i as int),
        decreases w@.len() - i,
    {
        out.push(w[i]);
        i = i + 1;
        proof {
            assert(out@ =~= base + w@.take(i as int));
        }
    }
    proof {
        assert(w@.take(w@.len() as int) =~= w@);
    }
    out
}

/// The prefix of the input names under `name`.
fn prefix_of(name: &str) -> (r: Vec<char>)
    ensures
        r@ == name_prefix(name@),
{
    let mut p = str_chars(name);
    if p.len() > 0 {
        p.push('.');
    }
    p
}

impl Poseidon {
    /// Assigns the commitments to `{name.}commitments.i` and the openings to
    /// `{name.}openings.i`.
    pub fn alloc_commitments_and_openings(
        commitments: &Vec<BigNat>,
        openings: &Vec<BigNat>,
        name: &str,
        input_map: &mut InputMap,
    )
        ensures
            final(input_map)@ == insert_numbers(
                insert_numbers(
                    old(input_map)@,
                    name_prefix(name@) + "commitments"@,
                    nats_val(commitments@),
                ),
                name_prefix(name@) + "openings"@,
                nats_val(openings@),
            ),
    {
        let prefix = prefix_of(name);
        alloc_numbers(commitments, &joined(&prefix, "commitments"), input_map);
        alloc_numbers(openings, &joined(&prefix, "openings"), input_map);
    }

    /// Assigns the commitments to `{name.}commitments.i`.
    pub fn alloc_commitments(commitments: &Vec<BigNat>, name: &str, input_map: &mut InputMap)
        ensures
            final(input_map)@ == insert_numbers(
                old(input_map)@,
                name_prefix(name@) + "commitments"@,
                nats_val(commitments@),
            ),
    {
        let prefix = prefix_of(name);
        alloc_numbers(commitments, &joined(&prefix, "commitments"), input_map);
    }

    /// Hashes `input`.
    pub fn new(input: Vec<BigInt>, consts: &PoseidonConstants) -> (r: Poseidon)
        requires
            1 <= input@.len() <= 6,
            consts.supports(input@.len() + 1int),
        ensures
            r.input@ == input@,
            r.output@ == poseidon_spec(ints_val(input@), *consts),
    {
        let output = poseidon_hash(&input, consts);
        Poseidon { input, output }
    }

    /// Commits to three exponents of at most 256 bits with 32-bit limbs: the low
    /// 224 bits of each exponent, the three remaining parts side by side, and
    /// the opening are hashed.
    pub fn commit_to_three_exp(
        exponents: &[BigNat; 3],
        opening: BigNat,
        limb_width: usize,
        consts: &PoseidonConstants,
    ) -> (r: BigNat)
        requires
            limb_width == 32,
            consts.supports(6),
        ensures
            r@ == poseidon_spec(
                three_exp_inputs(exponents@[0]@, exponents@[1]@, exponents@[2]@, opening@),
                *consts,
            ),
    {
        let mut poseidon_input: Vec<BigNat> = Vec::new();
        let mut remain_expo = BigNat::zero();
        let first_bitwidth: usize = FIRST_BITWIDTH;
        let mut i: usize = 0;
        proof {
            lemma2_to64();
        }
        while i < 3
            invariant
                i <= 3,
                first_bitwidth == 224,
                limb_width == 32,
                poseidon_input@.len() == i,
                forall|j: int|
                    0 <= j < i ==> (#[trigger] poseidon_input@[j])@ == exponents@[j]@ % pow2(224),
                remain_expo@ == high_parts(exponents@, i as int),
            decreases 3 - i,
        {
            let expo = &exponents[i];
            let remain = expo.shr(first_bitwidth);
            let shifted = remain.shl(i * limb_width);
            let ghost before = remain_expo@;
            remain_expo = remain_expo.add(&shifted);
            poseidon_input.push(expo.low_bits(first_bitwidth));
            proof {
                assert(remain@ == exponents@[i as int]@ / pow2(224));
                assert((i * limb_width) as nat == 32 * i);
            }
            i = i + 1;
        }
        poseidon_input.push(remain_expo);
        poseidon_input.push(opening);
        proof {
            reveal_with_fuel(high_parts, 4);
            lemma2_to64();
            let h0 = exponents@[0]@ / pow2(224);
            assert(pow2((32 * (1 - 1)) as nat) == 1);
            assert(h0 * pow2((32 * (1 - 1)) as nat) == h0) by (nonlinear_arith)
                requires
                    pow2((32 * (1 - 1)) as nat) == 1,
            ;
            assert(high_parts(exponents@, 1) == h0);
            assert(remain_expo@ == high_parts(exponents@, 3));
            assert(poseidon_input@[3]@ == remain_expo@);
            assert(poseidon_input@[4]@ == opening@);
            assert(nats_val(poseidon_input@) =~= three_exp_inputs(
                exponents@[0]@,
                exponents@[1]@,
                exponents@[2]@,
                opening@,
            ));
        }
        poseidon_hash(&nats_to_ints(&poseidon_input), consts)
    }
}

/// Commits to a scalar: the opening and the scalar, split at bit
/// `scalar_shift(window_size, n_chunks)`, are hashed.
pub fn commit_to_scalar(
    scalar: BigNat,
    opening: BigNat,
    window_size: usize,
    n_chunks: usize,
    consts: &PoseidonConstants,
) -> (r: BigNat)
    requires
        window_size > 0,
        256usize % window_size == 0 ==> n_chunks >= 1 && window_size * (n_chunks - 1)
            <= usize::MAX,
        256usize % window_size != 0 ==> n_chunks >= 2 && window_size * (n_chunks - 2) + 256usize
            % window_size <= usize::MAX,
        consts.supports(4),
    ensures
        r@ == poseidon_spec(
            scalar_commit_inputs(
                scalar@,
                opening@,
                scalar_shift(window_size as int, n_chunks as int) as nat,
            ),
            *consts,
        ),
{
    let shift: usize = if 256 % window_size == 0 {
        window_size * (n_chunks - 1)
    } else {
        window_size * (n_chunks - 2) + (256 % window_size)
    };
    let mut input: Vec<BigNat> = Vec::new();
    input.push(opening);
    input.push(scalar.low_bits(shift));
    input.push(scalar.shr(shift));
    proof {
        assert(nats_val(input@) =~= scalar_commit_inputs(scalar@, opening@, shift as nat));
    }
    let p = Poseidon::new(nats_to_ints(&input), consts);
    p.output
}

/// Commits to a point with `n_limbs` limbs of `limb_width` bits per
/// coordinate: the opening, the two top limbs joined, and the lower limbs of
/// `x` and `y` are hashed.
pub fn commit_to_point(
    point: &P256Point,
    opening: BigNat,
    limb_width: usize,
    n_limbs: usize,
    consts: &PoseidonConstants,
) -> (r: BigNat)
    requires
        n_limbs >= 1,
        limb_width * (n_limbs - 1) <= usize::MAX,
        consts.supports(5),
    ensures
        r@ == poseidon_spec(
            point_commit_inputs(
                point.x@,
                point.y@,
                opening@,
                limb_width as nat,
                (limb_width * (n_limbs - 1)) as nat,
            ),
            *consts,
        ),
{
    let k: usize = limb_width * (n_limbs - 1);
    let mut input: Vec<BigNat> = Vec::new();
    input.push(opening);
    let top = point.y.shr(k).shl(limb_width).add(&point.x.shr(k));
    input.push(top);
    input.push(point.x.low_bits(k));
    input.push(point.y.low_bits(k));
    proof {
        assert(nats_val(input@) =~= point_commit_inputs(
            point.x@,
            point.y@,
            opening@,
            limb_width as nat,
            k as nat,
        ));
    }
    let p = Poseidon::new(nats_to_ints(&input), consts);
    p.output
}

} // verus!
