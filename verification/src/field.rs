use vstd::prelude::*;
use vstd::arithmetic::power2::*;
use vstd::arithmetic::div_mod::*;
use vstd::arithmetic::mul::*;
use crate::bignat::BigInt;
use crate::bignat::{BigNat, bits_val, b2n, lemma_bits_val_push, lemma_bits_val_concat, lemma_bits_val_bound};

verus! {

/// The prime modulus of the proof system's field,
/// 52435875175126190479447740508185965837690552500527637822603658699938581184513.
pub open spec fn modulus() -> nat {
    52435875175126190479447740508185965837690552500527637822603658699938581184513nat
}

/// The modulus in decimal.
pub const DEFAULT_MODULUS_STR: &'static str =
    "52435875175126190479447740508185965837690552500527637822603658699938581184513";

/// Value of little-endian base-2^32 limbs.
pub open spec fn limbs_val(s: Seq<u32>) -> nat
    decreases s.len(),
{
    if s.len() == 0 {
        0
    } else {
        s[0] as nat + 4294967296 * limbs_val(s.skip(1))
    }
}

pub proof fn lemma_limbs_val_push(s: Seq<u32>, x: u32)
    ensures
        limbs_val(s.push(x)) == limbs_val(s) + pow2(32 * s.len()) * x,
    decreases s.len(),
{
    if s.len() == 0 {
        assert(s.push(x).skip(1) =~= Seq::<u32>::empty());
        assert(limbs_val(Seq::<u32>::empty()) == 0);
        lemma2_to64();
    } else {
        assert(s.push(x).skip(1) =~= s.skip(1).push(x));
        lemma_limbs_val_push(s.skip(1), x);
        lemma2_to64();
        lemma_pow2_adds(32, (32 * (s.len() - 1)) as nat);
        assert(32 + 32 * (s.len() - 1) == 32 * s.len());
        let p = pow2((32 * (s.len() - 1)) as nat);
        assert(4294967296 * (limbs_val(s.skip(1)) + p * x) == 4294967296 * limbs_val(s.skip(1))
            + (4294967296 * p) * x) by (nonlinear_arith);
    }
}

pub proof fn lemma_limbs_val_bound(s: Seq<u32>)
    ensures
        limbs_val(s) < pow2(32 * s.len()),
    decreases s.len(),
{
    if s.len() == 0 {
        lemma2_to64();
    } else {
        lemma_limbs_val_bound(s.skip(1));
        lemma2_to64();
        lemma_pow2_adds(32, (32 * (s.len() - 1)) as nat);
        assert(32 + 32 * (s.len() - 1) == 32 * s.len());
        let p = pow2((32 * (s.len() - 1)) as nat);
        let v = limbs_val(s.skip(1));
        assert(s[0] as nat + 4294967296 * v < 4294967296 * p) by (nonlinear_arith)
            requires
                v < p,
                s[0] < 4294967296,
        ;
    }
}

/// A residue modulo [`modulus`], held in eight base-2^32 limbs.
pub struct Fe {
    pub limbs: Vec<u32>,
}

impl View for Fe {
    type V = nat;

    open spec fn view(&self) -> nat {
        limbs_val(self.limbs@)
    }
}

impl Fe {
    /// Eight limbs holding a value below the modulus.
    pub open spec fn wf(&self) -> bool {
        self.limbs@.len() == 8 && self@ < modulus()
    }
}

/// The modulus as eight limbs.
pub fn modulus_limbs() -> (r: Vec<u32>)
    ensures
        r@.len() == 8,
        limbs_val(r@) == modulus(),
{
    let r: Vec<u32> = vec![
        1u32,
        4294967295u32,
        4294859774u32,
        1404937218u32,
        161601541u32,
        859428872u32,
        698187080u32,
        1944954707u32,
    ];
    proof {
        assert(r@ =~= seq![
            1u32,
            4294967295u32,
            4294859774u32,
            1404937218u32,
            161601541u32,
            859428872u32,
            698187080u32,
            1944954707u32,
        ]);
        reveal_with_fuel(limbs_val, 9);
        assert(limbs_val(
            seq![
                1u32,
                4294967295u32,
                4294859774u32,
                1404937218u32,
                161601541u32,
                859428872u32,
                698187080u32,
                1944954707u32,
            ],
        ) == modulus());
    }
    r
}

/// One limb step: `w * (t % 2^32) + (w * 2^32) * (t / 2^32) == w * t`.
proof fn lemma_limb_split(w: int, t: int)
    requires
        t >= 0,
    ensures
        w * (t % 4294967296) + (w * 4294967296) * (t / 4294967296) == w * t,
{
    lemma_fundamental_div_mod(t, 4294967296);
    assert(w * (t % 4294967296) + (w * 4294967296) * (t / 4294967296) == w * t) by (nonlinear_arith)
        requires
            t == 4294967296 * (t / 4294967296) + t % 4294967296,
    ;
}

/// Sum of two eight-limb numbers, with the carry out of the top limb.
fn add_limbs(a: &Vec<u32>, b: &Vec<u32>) -> (r: (Vec<u32>, u64))
    requires
        a@.len() == 8,
        b@.len() == 8,
    ensures
        r.0@.len() == 8,
        r.1 <= 1,
        limbs_val(r.0@) + pow2(256) * r.1 == limbs_val(a@) + limbs_val(b@),
{
    let mut out: Vec<u32> = Vec::new();
    let mut carry: u64 = 0;
    let mut i: usize = 0;
    proof {
        lemma2_to64();
        assert(a@.take(0) =~= Seq::<u32>::empty());
        assert(b@.take(0) =~= Seq::<u32>::empty());
    }
    while i < 8
        invariant
            i <= 8,
            a@.len() == 8,
            b@.len() == 8,
            out@.len() == i,
            carry <= 1,
            limbs_val(out@) + pow2(32 * i as nat) * carry == limbs_val(a@.take(i as int))
                + limbs_val(b@.take(i as int)),
        decreases 8 - i,
    {
        let t: u64 = a[i] as u64 + b[i] as u64 + carry;
        proof {
            assert(a@.take(i + 1) =~= a@.take(i as int).push(a@[i as int]));
            assert(b@.take(i + 1) =~= b@.take(i as int).push(b@[i as int]));
            lemma_limbs_val_push(a@.take(i as int), a@[i as int]);
            lemma_limbs_val_push(b@.take(i as int), b@[i as int]);
            lemma_limbs_val_push(out@, (t % 4294967296) as u32);
            lemma2_to64();
            lemma_pow2_adds(32 * i as nat, 32);
            let w = pow2(32 * i as nat) as int;
            lemma_limb_split(w, t as int);
            assert(w * (a@[i as int] + b@[i as int] + carry) == w * a@[i as int] + w * b@[i as int]
                + w * carry) by (nonlinear_arith);
        }
        out.push((t % 4294967296) as u32);
        carry = t / 4294967296;
        i = i + 1;
    }
    proof {
        assert(a@.take(8) =~= a@);
        assert(b@.take(8) =~= b@);
    }
    (out, carry)
}

/// Difference of two eight-limb numbers, with the borrow out of the top limb.
fn sub_limbs(a: &Vec<u32>, b: &Vec<u32>) -> (r: (Vec<u32>, bool))
    requires
        a@.len() == 8,
        b@.len() == 8,
    ensures
        r.0@.len() == 8,
        limbs_val(r.0@) - pow2(256) * b2n(r.1) == limbs_val(a@) - limbs_val(b@),
{
    let mut out: Vec<u32> = Vec::new();
    let mut borrow: bool = false;
    let mut i: usize = 0;
    proof {
        lemma2_to64();
        assert(a@.take(0) =~= Seq::<u32>::empty());
        assert(b@.take(0) =~= Seq::<u32>::empty());
    }
    while i < 8
        invariant
            i <= 8,
            a@.len() == 8,
            b@.len() == 8,
            out@.len() == i,
            limbs_val(out@) - pow2(32 * i as nat) * b2n(borrow) == limbs_val(a@.take(i as int))
                - limbs_val(b@.take(i as int)),
        decreases 8 - i,
    {
        let x: u64 = a[i] as u64;
        let y: u64 = b[i] as u64 + if borrow { 1u64 } else { 0u64 };
        let ghost old_borrow = borrow;
        let d: u32;
        if x >= y {
            d = (x - y) as u32;
            borrow = false;
        } else {
            d = (x + 4294967296 - y) as u32;
            borrow = true;
        }
        proof {
            assert(a@.take(i + 1) =~= a@.take(i as int).push(a@[i as int]));
            assert(b@.take(i + 1) =~= b@.take(i as int).push(b@[i as int]));
            lemma_limbs_val_push(a@.take(i as int), a@[i as int]);
            lemma_limbs_val_push(b@.take(i as int), b@[i as int]);
            lemma_limbs_val_push(out@, d);
            lemma2_to64();
            lemma_pow2_adds(32 * i as nat, 32);
            let w = pow2(32 * i as nat) as int;
            assert(w * d - (w * 4294967296) * b2n(borrow) == w * x - w * b@[i as int] - w * b2n(
                old_borrow)) by (nonlinear_arith)
                requires
                    d - 4294967296 * b2n(borrow) == x - b@[i as int] - b2n(old_borrow),
            ;
        }
        out.push(d);
        i = i + 1;
    }
    proof {
        assert(a@.take(8) =~= a@);
        assert(b@.take(8) =~= b@);
    }
    (out, borrow)
}

pub proof fn lemma_modulus_bound()
    ensures
        2 * modulus() < pow2(256),
        modulus() > 1,
{
    lemma2_to64();
    lemma2_to64_rest();
    lemma_pow2_adds(64, 64);
    lemma_pow2_adds(128, 128);
    assert(pow2(128) == 18446744073709551616nat * 18446744073709551616nat);
    assert(pow2(256) == 340282366920938463463374607431768211456nat
        * 340282366920938463463374607431768211456nat);
}

/// `(a + b) mod modulus` for reduced `a`, `b`.
pub fn add_mod(a: &Fe, b: &Fe) -> (r: Fe)
    requires
        a.wf(),
        b.wf(),
    ensures
        r.wf(),
        r@ == (a@ + b@) % modulus(),
{
    let (s, carry) = add_limbs(&a.limbs, &b.limbs);
    let p = modulus_limbs();
    let (d, borrow) = sub_limbs(&s, &p);
    proof {
        lemma_modulus_bound();
        lemma_limbs_val_bound(s@);
        lemma_limbs_val_bound(d@);
        assert(32 * s@.len() == 256);
        assert(32 * d@.len() == 256);
        assert(limbs_val(d@) < pow2(256));
        assert(limbs_val(s@) < pow2(256));
        assert(carry == 0) by (nonlinear_arith)
            requires
                limbs_val(s@) + pow2(256) * carry == a@ + b@,
                a@ + b@ < pow2(256),
                carry <= 1,
        ;
        assert(pow2(256) * carry == 0) by (nonlinear_arith)
            requires
                carry == 0,
        ;
    }
    if borrow {
        proof {
            assert(b2n(borrow) == 1);
            assert(pow2(256) * b2n(borrow) == pow2(256)) by (nonlinear_arith)
                requires
                    b2n(borrow) == 1,
            ;
            assert(limbs_val(s@) == a@ + b@);
            lemma_small_mod((a@ + b@) as nat, modulus());
        }
        Fe { limbs: s }
    } else {
        proof {
            assert(b2n(borrow) == 0);
            assert(pow2(256) * b2n(borrow) == 0) by (nonlinear_arith)
                requires
                    b2n(borrow) == 0,
            ;
            lemma_fundamental_div_mod_converse((a@ + b@) as int, modulus() as int, 1, limbs_val(d@) as int);
        }
        Fe { limbs: d }
    }
}

/// Zero as a residue.
pub fn fe_zero() -> (r: Fe)
    ensures
        r.wf(),
        r@ == 0,
{
    let r = Fe { limbs: vec![0u32, 0u32, 0u32, 0u32, 0u32, 0u32, 0u32, 0u32] };
    proof {
        assert(r.limbs@ =~= seq![0u32, 0u32, 0u32, 0u32, 0u32, 0u32, 0u32, 0u32]);
        reveal_with_fuel(limbs_val, 9);
    }
    r
}

/// One as a residue.
pub fn fe_one() -> (r: Fe)
    ensures
        r.wf(),
        r@ == 1,
{
    let r = Fe { limbs: vec![1u32, 0u32, 0u32, 0u32, 0u32, 0u32, 0u32, 0u32] };
    proof {
        assert(r.limbs@ =~= seq![1u32, 0u32, 0u32, 0u32, 0u32, 0u32, 0u32, 0u32]);
        reveal_with_fuel(limbs_val, 9);
    }
    r
}

/// The 256 bits of a residue.
pub fn fe_to_bits(a: &Fe) -> (r: Vec<bool>)
    requires
        a.limbs@.len() == 8,
    ensures
        r@.len() == 256,
        bits_val(r@) == a@,
{
    let mut out: Vec<bool> = Vec::new();
    let mut k: usize = 0;
    proof {
        assert(a.limbs@.take(0) =~= Seq::<u32>::empty());
    }
    while k < 8
        invariant
            k <= 8,
            a.limbs@.len() == 8,
            out@.len() == 32 * k,
            bits_val(out@) == limbs_val(a.limbs@.take(k as int)),
        decreases 8 - k,
    {
        let limb: u32 = a.limbs[k];
        let mut rest: u32 = limb;
        let mut j: usize = 0;
        proof {
            lemma2_to64();
            assert(32 - j == 32);
        }
        while j < 32
            invariant
                j <= 32,
                k < 8,
                out@.len() == 32 * k + j,
                rest < pow2((32 - j) as nat),
                bits_val(out@) + pow2(out@.len()) * rest == limbs_val(a.limbs@.take(k as int))
                    + pow2(32 * k as nat) * limb,
            decreases 32 - j,
        {
            proof {
                lemma_bits_val_push(out@, rest % 2 == 1);
                lemma_pow2_unfold(out@.len() + 1);
                lemma_pow2_unfold((32 - j) as nat);
                let p = pow2(out@.len());
                assert(p * rest == p * (rest % 2) + (2 * p) * (rest / 2)) by (nonlinear_arith)
                    requires
                        rest == 2 * (rest / 2) + rest % 2,
                ;
                assert(rest / 2 < pow2((32 - j - 1) as nat)) by (nonlinear_arith)
                    requires
                        rest < pow2((32 - j) as nat),
                        pow2((32 - j) as nat) == 2 * pow2((32 - j - 1) as nat),
                ;
            }
            out.push(rest % 2 == 1);
            rest = rest / 2;
            j = j + 1;
        }
        proof {
            lemma2_to64();
            assert(rest == 0);
            assert(pow2(out@.len()) * rest == 0) by (nonlinear_arith)
                requires
                    rest == 0,
            ;
            assert(a.limbs@.take(k + 1) =~= a.limbs@.take(k as int).push(limb));
            lemma_limbs_val_push(a.limbs@.take(k as int), limb);
        }
        k = k + 1;
    }
    proof {
        assert(a.limbs@.take(8) =~= a.limbs@);
    }
    out
}

/// `(a * b) mod modulus` for reduced `a`, `b`.
pub fn mul_mod(a: &Fe, b: &Fe) -> (r: Fe)
    requires
        a.wf(),
        b.wf(),
    ensures
        r.wf(),
        r@ == (a@ * b@) % modulus(),
{
    let bits = fe_to_bits(b);
    let mut r = fe_zero();
    let mut i: usize = 256;
    proof {
        lemma_modulus_bound();
        assert(bits@.skip(256) =~= Seq::<bool>::empty());
        assert(a@ * 0 == 0) by (nonlinear_arith);
        lemma_small_mod(0, modulus());
    }
    while i > 0
        invariant
            i <= 256,
            bits@.len() == 256,
            a.wf(),
            r.wf(),
            modulus() > 1,
            r@ == (a@ * bits_val(bits@.skip(i as int))) % modulus(),
        decreases i,
    {
        i = i - 1;
        let ghost v = bits_val(bits@.skip(i + 1));
        proof {
            assert(bits@.skip(i as int).skip(1) =~= bits@.skip(i + 1));
            assert(bits@.skip(i as int)[0] == bits@[i as int]);
            lemma_mul_mod_noop_general(2, (a@ * v) as int, modulus() as int);
        }
        let r2 = add_mod(&r, &r);
        proof {
            assert(r2@ == (2 * (a@ * v)) % modulus());
        }
        if bits[i] {
            let r3 = add_mod(&r2, a);
            proof {
                lemma_small_mod(a@, modulus());
                lemma_add_mod_noop((2 * (a@ * v)) as int, a@ as int, modulus() as int);
                assert(2 * (a@ * v) + a@ == a@ * (1 + 2 * v)) by (nonlinear_arith);
            }
            r = r3;
        } else {
            proof {
                assert(2 * (a@ * v) == a@ * (0 + 2 * v)) by (nonlinear_arith);
            }
            r = r2;
        }
    }
    proof {
        assert(bits@.skip(0) =~= bits@);
    }
    r
}

/// `x mod modulus` for a natural number of any size.
pub fn reduce(x: &BigNat) -> (r: Fe)
    ensures
        r.wf(),
        r@ == x@ % modulus(),
{
    let one = fe_one();
    let mut r = fe_zero();
    let mut i: usize = x.bits.len();
    proof {
        lemma_modulus_bound();
        assert(x.bits@.skip(x.bits@.len() as int) =~= Seq::<bool>::empty());
        lemma_small_mod(0, modulus());
    }
    while i > 0
        invariant
            i <= x.bits@.len(),
            one.wf(),
            one@ == 1,
            r.wf(),
            modulus() > 1,
            r@ == bits_val(x.bits@.skip(i as int)) % modulus(),
        decreases i,
    {
        i = i - 1;
        let ghost v = bits_val(x.bits@.skip(i + 1));
        proof {
            assert(x.bits@.skip(i as int).skip(1) =~= x.bits@.skip(i + 1));
            assert(x.bits@.skip(i as int)[0] == x.bits@[i as int]);
            lemma_mul_mod_noop_general(2, v as int, modulus() as int);
        }
        let r2 = add_mod(&r, &r);
        if x.bits[i] {
            let r3 = add_mod(&r2, &one);
            proof {
                lemma_small_mod(1, modulus());
                lemma_add_mod_noop((2 * v) as int, 1, modulus() as int);
            }
            r = r3;
        } else {
            r = r2;
        }
    }
    proof {
        assert(x.bits@.skip(0) =~= x.bits@);
    }
    r
}

/// `(modulus - a) mod modulus` for reduced `a`.
fn neg_mod(a: &Fe) -> (r: Fe)
    requires
        a.wf(),
    ensures
        r.wf(),
        r@ == (modulus() - a@) % (modulus() as int),
{
    proof {
        lemma_modulus_bound();
    }
    let mut zero = true;
    let mut i: usize = 0;
    while i < 8
        invariant
            i <= 8,
            a.limbs@.len() == 8,
            zero == forall|j: int| 0 <= j < i ==> a.limbs@[j] == 0u32,
        decreases 8 - i,
    {
        if a.limbs[i] != 0 {
            zero = false;
        }
        i = i + 1;
    }
    if zero {
        proof {
            assert(a.limbs@ =~= seq![0u32, 0u32, 0u32, 0u32, 0u32, 0u32, 0u32, 0u32]);
            reveal_with_fuel(limbs_val, 9);
            assert(a@ == 0);
            lemma_mod_self_0(modulus() as int);
        }
        return fe_zero();
    }
    let p = modulus_limbs();
    let (d, borrow) = sub_limbs(&p, &a.limbs);
    proof {
        let j = choose|j: int| 0 <= j < 8 && a.limbs@[j] != 0u32;
        lemma_limbs_val_nonzero(a.limbs@, j);
        lemma_limbs_val_bound(d@);
        assert(32 * d@.len() == 256);
        if borrow {
            assert(b2n(borrow) == 1);
            assert(pow2(256) * b2n(borrow) == pow2(256)) by (nonlinear_arith)
                requires
                    b2n(borrow) == 1,
            ;
        } else {
            assert(b2n(borrow) == 0);
            assert(pow2(256) * b2n(borrow) == 0) by (nonlinear_arith)
                requires
                    b2n(borrow) == 0,
            ;
        }
        assert(!borrow);
        assert(limbs_val(d@) == modulus() - a@);
        lemma_small_mod((modulus() - a@) as nat, modulus());
    }
    Fe { limbs: d }
}

/// A limb sequence with a nonzero limb is worth something.
proof fn lemma_limbs_val_nonzero(s: Seq<u32>, j: int)
    requires
        0 <= j < s.len(),
        s[j] != 0u32,
    ensures
        limbs_val(s) > 0,
    decreases s.len(),
{
    if j < s.len() - 1 {
        assert(s.drop_last()[j] == s[j]);
        lemma_limbs_val_nonzero(s.drop_last(), j);
        lemma_limbs_val_push(s.drop_last(), s.last());
        assert(s.drop_last().push(s.last()) =~= s);
    } else {
        lemma_limbs_val_push(s.drop_last(), s.last());
        assert(s.drop_last().push(s.last()) =~= s);
        lemma2_to64();
        lemma_pow2_pos(32 * s.drop_last().len());
        assert(pow2(32 * s.drop_last().len()) * s.last() > 0) by (nonlinear_arith)
            requires
                pow2(32 * s.drop_last().len()) > 0,
                s.last() > 0,
        ;
    }
}

/// `x mod modulus` for an integer of any size and sign.
pub fn reduce_int(x: &BigInt) -> (r: Fe)
    ensures
        r.wf(),
        r@ == x@ % (modulus() as int),
{
    let r = reduce(&x.magnitude);
    if x.negative {
        let n = neg_mod(&r);
        proof {
            lemma_modulus_bound();
            let m = modulus() as int;
            let v = x.magnitude@ as int;
            let q = v / m;
            let rr = v % m;
            lemma_fundamental_div_mod(v, m);
            if rr == 0 {
                lemma_fundamental_div_mod_converse(-v, m, -q, 0);
                lemma_mod_self_0(m);
            } else {
                lemma_fundamental_div_mod_converse(-v, m, -q - 1, m - rr);
                lemma_small_mod((m - rr) as nat, m as nat);
            }
        }
        n
    } else {
        r
    }
}

/// A residue as a natural number.
pub fn fe_to_bignat(a: &Fe) -> (r: BigNat)
    requires
        a.limbs@.len() == 8,
    ensures
        r@ == a@,
{
    BigNat { bits: fe_to_bits(a) }
}

/// `x^5`.
pub open spec fn pow5(x: int) -> int {
    x * x * x * x * x
}

/// `x^5 mod modulus` for reduced `x`.
pub fn pow5_mod(x: &Fe) -> (r: Fe)
    requires
        x.wf(),
    ensures
        r.wf(),
        r@ == pow5(x@ as int) % (modulus() as int),
{
    let x2 = mul_mod(x, x);
    let x4 = mul_mod(&x2, &x2);
    let x5 = mul_mod(&x4, x);
    proof {
        let m = modulus() as int;
        let xv = x@ as int;
        lemma_modulus_bound();
        lemma_mul_mod_noop_general(xv * xv, xv * xv, m);
        lemma_mul_mod_noop_general((xv * xv) * (xv * xv), xv, m);
        assert((xv * xv) * (xv * xv) * xv == pow5(xv)) by (nonlinear_arith);
    }
    x5
}

} // verus!
