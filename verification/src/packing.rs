use vstd::prelude::*;
use vstd::arithmetic::power2::*;
use vstd::arithmetic::div_mod::*;
use vstd::arithmetic::mul::*;
use crate::bignat::BigNat;
use crate::poseidon::nats_val;

verus! {

/// `ceil(a / b)`.
pub fn ceil_div(a: usize, b: usize) -> (r: usize)
    requires
        b > 0,
        a + b <= usize::MAX,
    ensures
        r == (a + b - 1) / (b as int),
{
    (a + b - 1) / b
}

/// Little-endian base-256 value of `s`: `s[0] + 256 * s[1] + 256^2 * s[2] + ...`.
pub open spec fn packed(s: Seq<int>) -> int
    decreases s.len(),
{
    if s.len() == 0 {
        0
    } else {
        s[0] + 256 * packed(s.skip(1))
    }
}

pub proof fn lemma_packed_push(s: Seq<int>, x: int)
    ensures
        packed(s.push(x)) == packed(s) + pow2(8 * s.len()) * x,
    decreases s.len(),
{
    if s.len() == 0 {
        assert(s.push(x).skip(1) =~= Seq::<int>::empty());
        assert(packed(Seq::<int>::empty()) == 0);
        lemma2_to64();
    } else {
        assert(s.push(x).skip(1) =~= s.skip(1).push(x));
        lemma_packed_push(s.skip(1), x);
        lemma2_to64();
        lemma_pow2_adds(8, (8 * (s.len() - 1)) as nat);
        assert(8 + 8 * (s.len() - 1) == 8 * s.len());
        let p = pow2((8 * (s.len() - 1)) as nat) as int;
        assert(256 * (packed(s.skip(1)) + p * x) == 256 * packed(s.skip(1)) + (256 * p) * x)
            by (nonlinear_arith);
    }
}

/// Packing bytes loses nothing: byte `i` is digit `i` of the packed value
/// in base 256, and the packed value of `n` bytes is below `256^n`.
pub proof fn lemma_packed_bytes(s: Seq<int>)
    requires
        forall|i: int| 0 <= i < s.len() ==> 0 <= #[trigger] s[i] < 256,
    ensures
        0 <= packed(s) < pow2(8 * s.len()),
        forall|i: int|
            0 <= i < s.len() ==> (packed(s) / (pow2(8 * i as nat) as int)) % 256 == #[trigger] s[i],
    decreases s.len(),
{
    lemma2_to64();
    if s.len() > 0 {
        let rest = s.skip(1);
        assert forall|i: int| 0 <= i < rest.len() implies 0 <= #[trigger] rest[i] < 256 by {
            assert(rest[i] == s[i + 1]);
        }
        lemma_packed_bytes(rest);
        let pr = packed(rest);
        lemma_pow2_adds(8, (8 * (s.len() - 1)) as nat);
        assert(8 + 8 * (s.len() - 1) == 8 * s.len());
        let q = pow2((8 * (s.len() - 1)) as nat) as int;
        assert(s[0] + 256 * pr < 256 * q) by (nonlinear_arith)
            requires
                pr < q,
                0 <= s[0] < 256,
        ;
        assert forall|i: int| 0 <= i < s.len() implies (packed(s) / (pow2(8 * i as nat) as int))
            % 256 == #[trigger] s[i] by {
            let v = packed(s);
            lemma_fundamental_div_mod_converse(v, 256, pr, s[0]);
            if i == 0 {
                lemma2_to64();
                assert(pow2(8 * i as nat) == 1);
                assert(v / 1 == v);
                assert(v % 256 == s[0]);
            } else {
                lemma_pow2_adds(8, (8 * (i - 1)) as nat);
                assert(8 + 8 * (i - 1) == 8 * i);
                let w = pow2((8 * (i - 1)) as nat) as int;
                lemma_pow2_pos((8 * (i - 1)) as nat);
                assert(0 <= v) by (nonlinear_arith)
                    requires
                        v == s[0] + 256 * pr,
                        0 <= s[0],
                        0 <= pr,
                ;
                lemma_div_denominator(v, 256, w);
                assert(pow2(8 * i as nat) as int == 256 * w);
                assert(v / 256 == pr);
                assert(rest[i - 1] == s[i]);
                assert((pr / w) % 256 == rest[i - 1]);
            }
        }
    }
}

/// Packed value of `len` elements of `v` starting at `start`.
fn pack_range(v: &Vec<BigNat>, start: usize, len: usize) -> (r: BigNat)
    requires
        start + len <= v@.len(),
        8 * len <= usize::MAX,
    ensures
        r@ == packed(nats_val(v@).subrange(start as int, start + len)),
{
    let mut base_shift: usize = 0;
    let mut out = BigNat::zero();
    let mut i: usize = 0;
    let ghost vals = nats_val(v@);
    let vl = v.len();
    proof {
        assert(vals.subrange(start as int, start as int) =~= Seq::<int>::empty());
        assert(packed(Seq::<int>::empty()) == 0);
    }
    while i < len
        invariant
            i <= len,
            start + len <= v@.len(),
            vl == v@.len(),
            8 * len <= usize::MAX,
            vals == nats_val(v@),
            base_shift == 8 * i,
            out@ == packed(vals.subrange(start as int, start + i)),
        decreases len - i,
    {
        let term = v[start + i].shl(base_shift);
        proof {
            assert(vals.subrange(start as int, start + i + 1) =~= vals.subrange(
                start as int,
                start + i,
            ).push(vals[start + i]));
            lemma_packed_push(vals.subrange(start as int, start + i), vals[start + i]);
            lemma_mul_is_commutative(v@[start + i]@ as int, pow2(8 * i as nat) as int);
        }
        out = out.add(&term);
        i = i + 1;
        base_shift = base_shift + 8;
    }
    out
}

/// Packs byte-sized words, least significant first:
/// `inputs[0] + 256 * inputs[1] + 256^2 * inputs[2] + ...`.
pub fn pack_words(inputs: &Vec<BigNat>) -> (r: BigNat)
    requires
        8 * inputs@.len() <= usize::MAX,
    ensures
        r@ == packed(nats_val(inputs@)),
{
    let r = pack_range(inputs, 0, inputs.len());
    proof {
        assert(nats_val(inputs@).subrange(0, inputs@.len() as int) =~= nats_val(inputs@));
    }
    r
}

/// `s` followed by zeros up to length `size`.
pub open spec fn pad_spec(s: Seq<int>, size: int) -> Seq<int> {
    Seq::new(size as nat, |i: int| if i < s.len() { s[i] } else { 0 })
}

/// `inputs` followed by zeros up to length `padded_size`.
pub fn zero_pad(inputs: Vec<BigNat>, padded_size: usize) -> (r: Vec<BigNat>)
    requires
        padded_size >= inputs@.len(),
    ensures
        r@.len() == padded_size,
        nats_val(r@) == pad_spec(nats_val(inputs@), padded_size as int),
{
    let ghost orig = nats_val(inputs@);
    let mut padded = inputs;
    while padded.len() < padded_size
        invariant
            orig.len() <= padded@.len() <= padded_size,
            forall|i: int| 0 <= i < padded@.len() ==> #[trigger] nats_val(padded@)[i] == pad_spec(
                orig,
                padded_size as int,
            )[i],
        decreases padded_size - padded@.len(),
    {
        let ghost prev = padded@;
        let z = BigNat::zero();
        padded.push(z);
        proof {
            assert forall|i: int| 0 <= i < padded@.len() implies #[trigger] nats_val(padded@)[i]
                == pad_spec(orig, padded_size as int)[i] by {
                if i < prev.len() {
                    assert(padded@[i] == prev[i]);
                    assert(nats_val(prev)[i] == pad_spec(orig, padded_size as int)[i]);
                } else {
                    assert(padded@[i] == z);
                }
            }
        }
    }
    proof {
        assert(nats_val(padded@) =~= pad_spec(orig, padded_size as int));
    }
    padded
}

/// Packs `old_size`-bit words into `new_size`-bit words: the inputs are
/// zero-padded to a multiple of `new_size / old_size` and every group is
/// packed with [`pack_words`].
pub fn pack_vector(inputs: Vec<BigNat>, new_size: usize, old_size: usize) -> (r: Vec<BigNat>)
    requires
        old_size > 0,
        new_size >= old_size,
        inputs@.len() + new_size / old_size <= usize::MAX,
        8 * (new_size / old_size) <= usize::MAX,
    ensures
        ({
            let w = (new_size / old_size) as int;
            let out = (inputs@.len() + w - 1) / w;
            &&& r@.len() == out
            &&& forall|i: int|
                0 <= i < out ==> (#[trigger] r@[i])@ == packed(
                    pad_spec(nats_val(inputs@), out * w).subrange(w * i, w * (i + 1)),
                )
        }),
{
    let n = inputs.len();
    let words_per_field: usize = new_size / old_size;
    proof {
        assert(words_per_field >= 1) by (nonlinear_arith)
            requires
                words_per_field == new_size / old_size,
                new_size >= old_size,
                old_size > 0,
        ;
    }
    let outsize: usize = ceil_div(n, words_per_field);
    proof {
        assert(outsize * words_per_field <= n + words_per_field) by (nonlinear_arith)
            requires
                outsize == (n + words_per_field - 1) / (words_per_field as int),
                words_per_field >= 1,
        ;
        assert(outsize * words_per_field >= n) by (nonlinear_arith)
            requires
                outsize == (n + words_per_field - 1) / (words_per_field as int),
                words_per_field >= 1,
        ;
    }
    let padded_size: usize = outsize * words_per_field;
    let ghost vals = nats_val(inputs@);
    let padded_inputs = zero_pad(inputs, padded_size);
    let mut out: Vec<BigNat> = Vec::new();
    let mut i: usize = 0;
    while i < outsize
        invariant
            i <= outsize,
            padded_size == outsize * words_per_field,
            8 * words_per_field <= usize::MAX,
            padded_inputs@.len() == padded_size,
            nats_val(padded_inputs@) == pad_spec(vals, padded_size as int),
            out@.len() == i,
            forall|k: int|
                0 <= k < i ==> (#[trigger] out@[k])@ == packed(
                    pad_spec(vals, outsize * words_per_field).subrange(
                        words_per_field * k,
                        words_per_field * (k + 1),
                    ),
                ),
        decreases outsize - i,
    {
        proof {
            assert(words_per_field * i + words_per_field <= padded_size) by (nonlinear_arith)
                requires
                    i < outsize,
                    padded_size == outsize * words_per_field,
            ;
            assert(words_per_field * (i + 1) == words_per_field * i + words_per_field)
                by (nonlinear_arith);
        }
        let word = pack_range(&padded_inputs, words_per_field * i, words_per_field);
        out.push(word);
        i = i + 1;
    }
    out
}

} // verus!
