use vstd::prelude::*;
use vstd::arithmetic::power2::*;
use vstd::arithmetic::div_mod::*;
use vstd::arithmetic::mul::*;
use crate::text::{decimal, digit, digit_char};

verus! {

/// 1 for a set bit, 0 otherwise.
pub open spec fn b2n(b: bool) -> nat {
    if b { 1 } else { 0 }
}

/// Value of a little-endian bit sequence.
pub open spec fn bits_val(s: Seq<bool>) -> nat
    decreases s.len(),
{
    if s.len() == 0 {
        0
    } else {
        b2n(s[0]) + 2 * bits_val(s.skip(1))
    }
}

/// A run of `n` zero bits.
pub open spec fn zero_bits(n: nat) -> Seq<bool> {
    Seq::new(n, |i: int| false)
}

/// `s` read as `n` bits: bits beyond the end of `s` are zero.
pub open spec fn bits_ext(s: Seq<bool>, n: nat) -> Seq<bool> {
    Seq::new(n, |i: int| i < s.len() && s[i])
}

pub proof fn lemma_bits_val_concat(a: Seq<bool>, b: Seq<bool>)
    ensures
        bits_val(a + b) == bits_val(a) + pow2(a.len()) * bits_val(b),
    decreases a.len(),
{
    if a.len() == 0 {
        assert(a + b =~= b);
        lemma2_to64();
    } else {
        assert((a + b).skip(1) =~= a.skip(1) + b);
        lemma_bits_val_concat(a.skip(1), b);
        lemma_pow2_unfold(a.len());
        assert((a + b)[0] == a[0]);
        let p = pow2((a.len() - 1) as nat);
        assert(2 * (bits_val(a.skip(1)) + p * bits_val(b)) == 2 * bits_val(a.skip(1)) + (2 * p)
            * bits_val(b)) by (nonlinear_arith);
    }
}

pub proof fn lemma_bits_val_push(s: Seq<bool>, b: bool)
    ensures
        bits_val(s.push(b)) == bits_val(s) + pow2(s.len()) * b2n(b),
{
    let one = seq![b];
    assert(s.push(b) =~= s + one);
    lemma_bits_val_concat(s, one);
    assert(one.skip(1) =~= Seq::<bool>::empty());
    assert(bits_val(Seq::<bool>::empty()) == 0);
    assert(one[0] == b);
    assert(bits_val(one) == b2n(b));
}

pub proof fn lemma_bits_val_bound(s: Seq<bool>)
    ensures
        bits_val(s) < pow2(s.len()),
    decreases s.len(),
{
    if s.len() == 0 {
        lemma2_to64();
    } else {
        lemma_bits_val_bound(s.skip(1));
        lemma_pow2_unfold(s.len());
    }
}

pub proof fn lemma_zero_bits_val(n: nat)
    ensures
        bits_val(zero_bits(n)) == 0,
    decreases n,
{
    if n > 0 {
        assert(zero_bits(n).skip(1) =~= zero_bits((n - 1) as nat));
        lemma_zero_bits_val((n - 1) as nat);
    }
}

pub proof fn lemma_bits_ext_val(s: Seq<bool>, n: nat)
    requires
        n >= s.len(),
    ensures
        bits_val(bits_ext(s, n)) == bits_val(s),
{
    let z = zero_bits((n - s.len()) as nat);
    assert(bits_ext(s, n) =~= s + z);
    lemma_bits_val_concat(s, z);
    lemma_zero_bits_val((n - s.len()) as nat);
}

/// Splitting a bit sequence at `k` splits its value into remainder and quotient by `2^k`.
pub proof fn lemma_bits_val_split(s: Seq<bool>, k: int)
    requires
        0 <= k <= s.len(),
    ensures
        bits_val(s) == bits_val(s.take(k)) + pow2(k as nat) * bits_val(s.skip(k)),
        bits_val(s.take(k)) == bits_val(s) % pow2(k as nat),
        bits_val(s.skip(k)) == bits_val(s) / pow2(k as nat),
{
    assert(s =~= s.take(k) + s.skip(k));
    lemma_bits_val_concat(s.take(k), s.skip(k));
    lemma_bits_val_bound(s.take(k));
    lemma_pow2_pos(k as nat);
    lemma_mul_is_commutative(pow2(k as nat) as int, bits_val(s.skip(k)) as int);
    lemma_fundamental_div_mod_converse(
        bits_val(s) as int,
        pow2(k as nat) as int,
        bits_val(s.skip(k)) as int,
        bits_val(s.take(k)) as int,
    );
}

/// A bit sequence is worth zero exactly when no bit is set.
pub proof fn lemma_bits_val_zero(s: Seq<bool>)
    ensures
        (bits_val(s) == 0) == (forall|i: int| 0 <= i < s.len() ==> !#[trigger] s[i]),
    decreases s.len(),
{
    if s.len() > 0 {
        lemma_bits_val_zero(s.skip(1));
        if bits_val(s) == 0 {
            assert forall|i: int| 0 <= i < s.len() implies !#[trigger] s[i] by {
                if i > 0 {
                    assert(s.skip(1)[i - 1] == s[i]);
                }
            }
        } else {
            if b2n(s[0]) == 0 {
                let j = choose|j: int| 0 <= j < s.skip(1).len() && #[trigger] s.skip(1)[j];
                assert(s[j + 1]);
            }
        }
    }
}

/// The bits of `s` from index `i` upward.
pub proof fn lemma_bits_val_skip(s: Seq<bool>, i: int)
    requires
        0 <= i < s.len(),
    ensures
        bits_val(s.skip(i)) == b2n(s[i]) + 2 * bits_val(s.skip(i + 1)),
{
    assert(s.skip(i).skip(1) =~= s.skip(i + 1));
    assert(s.skip(i)[0] == s[i]);
}

/// A natural number of any size, stored as little-endian bits.
pub struct BigNat {
    pub bits: Vec<bool>,
}

impl View for BigNat {
    type V = nat;

    open spec fn view(&self) -> nat {
        bits_val(self.bits@)
    }
}

impl BigNat {
    /// Zero.
    pub fn zero() -> (r: BigNat)
        ensures
            r@ == 0,
    {
        BigNat { bits: Vec::new() }
    }

    /// The value of a machine word.
    pub fn from_u64(x: u64) -> (r: BigNat)
        ensures
            r@ == x,
    {
        let mut bits: Vec<bool> = Vec::new();
        let mut rest: u64 = x;
        let mut i: usize = 0;
        proof {
            lemma2_to64();
        }
        while i < 64
            invariant
                i <= 64,
                bits@.len() == i,
                x == bits_val(bits@) + pow2(i as nat) * rest,
            decreases 64 - i,
        {
            proof {
                lemma_bits_val_push(bits@, rest % 2 == 1);
                lemma_pow2_unfold((i + 1) as nat);
                let p = pow2(i as nat);
                assert(p * rest == p * (rest % 2) + (2 * p) * (rest / 2)) by (nonlinear_arith)
                    requires rest == 2 * (rest / 2) + rest % 2;
            }
            bits.push(rest % 2 == 1);
            rest = rest / 2;
            i = i + 1;
        }
        proof {
            lemma2_to64_rest();
            assert(rest == 0) by (nonlinear_arith)
                requires
                    x == bits_val(bits@) + pow2(64) * rest,
                    pow2(64) > x,
            ;
        }
        BigNat { bits }
    }

    /// A copy of `self`.
    pub fn copy(&self) -> (r: BigNat)
        ensures
            r@ == self@,
    {
        let bits = self.bits.clone();
        proof {
            assert(bits@ =~= self.bits@);
        }
        BigNat { bits }
    }

    /// Whether `self` is zero.
    pub fn is_zero(&self) -> (r: bool)
        ensures
            r == (self@ == 0),
    {
        proof {
            lemma_bits_val_zero(self.bits@);
        }
        let mut i: usize = 0;
        while i < self.bits.len()
            invariant
                i <= self.bits@.len(),
                forall|j: int| 0 <= j < i ==> !#[trigger] self.bits@[j],
            decreases self.bits@.len() - i,
        {
            if self.bits[i] {
                proof {
                    assert(self.bits@[i as int]);
                    lemma_bits_val_zero(self.bits@);
                }
                return false;
            }
            i = i + 1;
        }
        true
    }

    /// Bit `i` (zero beyond the stored bits).
    pub fn bit(&self, i: usize) -> (b: bool)
        ensures
            b == (i < self.bits@.len() && self.bits@[i as int]),
    {
        i < self.bits.len() && self.bits[i]
    }

    /// `self * 2^k`.
    pub fn shl(&self, k: usize) -> (r: BigNat)
        ensures
            r@ == self@ * pow2(k as nat),
            r.bits@.len() == self.bits@.len() + k,
    {
        let mut bits: Vec<bool> = Vec::new();
        let mut i: usize = 0;
        while i < k
            invariant
                i <= k,
                bits@ == zero_bits(i as nat),
            decreases k - i,
        {
            bits.push(false);
            i = i + 1;
            proof {
                assert(bits@ =~= zero_bits(i as nat));
            }
        }
        let n = self.bits.len();
        let mut j: usize = 0;
        while j < n
            invariant
                j <= n,
                n == self.bits@.len(),
                bits@ == zero_bits(k as nat) + self.bits@.take(j as int),
            decreases n - j,
        {
            bits.push(self.bits[j]);
            j = j + 1;
            proof {
                assert(bits@ =~= zero_bits(k as nat) + self.bits@.take(j as int));
            }
        }
        proof {
            assert(self.bits@.take(n as int) =~= self.bits@);
            lemma_bits_val_concat(zero_bits(k as nat), self.bits@);
            lemma_zero_bits_val(k as nat);
            lemma_mul_is_commutative(self@ as int, pow2(k as nat) as int);
        }
        BigNat { bits }
    }

    /// `self / 2^k` (floor).
    pub fn shr(&self, k: usize) -> (r: BigNat)
        ensures
            r@ == self@ / pow2(k as nat),
    {
        let n = self.bits.len();
        let mut bits: Vec<bool> = Vec::new();
        if k < n {
            let mut j: usize = k;
            while j < n
                invariant
                    k <= j <= n,
                    n == self.bits@.len(),
                    bits@ == self.bits@.subrange(k as int, j as int),
                decreases n - j,
            {
                bits.push(self.bits[j]);
                j = j + 1;
                proof {
                    assert(bits@ =~= self.bits@.subrange(k as int, j as int));
                }
            }
            proof {
                assert(bits@ =~= self.bits@.skip(k as int));
                lemma_bits_val_split(self.bits@, k as int);
            }
        } else {
            proof {
                lemma_bits_val_bound(self.bits@);
                lemma_pow2_pos(k as nat);
                if k > n {
                    lemma_pow2_strictly_increases(n as nat, k as nat);
                }
                lemma_basic_div(self@ as int, pow2(k as nat) as int);
            }
        }
        BigNat { bits }
    }

    /// `self mod 2^k`.
    pub fn low_bits(&self, k: usize) -> (r: BigNat)
        ensures
            r@ == self@ % pow2(k as nat),
    {
        let n = self.bits.len();
        let m = if k < n { k } else { n };
        let mut bits: Vec<bool> = Vec::new();
        let mut j: usize = 0;
        while j < m
            invariant
                j <= m <= n,
                n == self.bits@.len(),
                bits@ == self.bits@.take(j as int),
            decreases m - j,
        {
            bits.push(self.bits[j]);
            j = j + 1;
            proof {
                assert(bits@ =~= self.bits@.take(j as int));
            }
        }
        proof {
            lemma_pow2_pos(k as nat);
            if k < n {
                lemma_bits_val_split(self.bits@, k as int);
            } else {
                assert(bits@ =~= self.bits@);
                lemma_bits_val_bound(self.bits@);
                if k > n {
                    lemma_pow2_strictly_increases(n as nat, k as nat);
                }
                lemma_small_mod(self@, pow2(k as nat));
            }
        }
        BigNat { bits }
    }

    /// `self + other`.
    pub fn add(&self, other: &BigNat) -> (r: BigNat)
        ensures
            r@ == self@ + other@,
    {
        let la = self.bits.len();
        let lb = other.bits.len();
        let n = if la < lb { lb } else { la };
        let mut bits: Vec<bool> = Vec::new();
        let mut carry: bool = false;
        let mut i: usize = 0;
        while i < n
            invariant
                i <= n,
                la == self.bits@.len(),
                lb == other.bits@.len(),
                n >= la,
                n >= lb,
                bits@.len() == i,
                bits_val(bits@) + pow2(i as nat) * b2n(carry) == bits_val(bits_ext(self.bits@, i as nat))
                    + bits_val(bits_ext(other.bits@, i as nat)),
            decreases n - i,
        {
            let x = self.bit(i);
            let y = other.bit(i);
            let s: u8 = (if x { 1u8 } else { 0u8 }) + (if y { 1u8 } else { 0u8 }) + (if carry {
                1u8
            } else {
                0u8
            });
            proof {
                let ea = bits_ext(self.bits@, i as nat);
                let eb = bits_ext(other.bits@, i as nat);
                assert(bits_ext(self.bits@, (i + 1) as nat) =~= ea.push(x));
                assert(bits_ext(other.bits@, (i + 1) as nat) =~= eb.push(y));
                lemma_bits_val_push(ea, x);
                lemma_bits_val_push(eb, y);
                lemma_bits_val_push(bits@, s % 2 == 1);
                lemma_pow2_unfold((i + 1) as nat);
                let p = pow2(i as nat);
                assert(p * b2n(x) + p * b2n(y) + p * b2n(carry) == p * (s % 2) + (2 * p) * (s
                    / 2)) by (nonlinear_arith)
                    requires
                        s == b2n(x) + b2n(y) + b2n(carry),
                        s <= 3,
                ;
            }
            bits.push(s % 2 == 1);
            carry = s >= 2;
            i = i + 1;
        }
        let ghost prev = bits@;
        bits.push(carry);
        proof {
            lemma_bits_val_push(prev, carry);
            lemma_bits_ext_val(self.bits@, n as nat);
            lemma_bits_ext_val(other.bits@, n as nat);
        }
        BigNat { bits }
    }

    /// `(self / d, self % d)`.
    pub fn divmod_small(&self, d: u64) -> (r: (BigNat, u64))
        requires
            0 < d < 0x8000_0000_0000_0000,
        ensures
            r.0@ == self@ / (d as nat),
            r.1 == self@ % (d as nat),
    {
        let n = self.bits.len();
        let mut q: Vec<bool> = Vec::new();
        let mut k: usize = 0;
        while k < n
            invariant
                k <= n,
                q@ == zero_bits(k as nat),
            decreases n - k,
        {
            q.push(false);
            k = k + 1;
            proof {
                assert(q@ =~= zero_bits(k as nat));
            }
        }
        let mut rem: u64 = 0;
        let mut i: usize = n;
        proof {
            assert(q@.len() == n);
            assert(self.bits@.skip(n as int) =~= Seq::<bool>::empty());
            assert(q@.skip(n as int) =~= Seq::<bool>::empty());
            assert(bits_val(self.bits@.skip(n as int)) == 0);
            assert(bits_val(q@.skip(n as int)) == 0);
            assert(bits_val(q@.skip(n as int)) * d + rem == 0);
        }
        while i > 0
            invariant
                i <= n,
                n == self.bits@.len(),
                q@.len() == n,
                0 < d < 0x8000_0000_0000_0000,
                rem < d,
                bits_val(self.bits@.skip(i as int)) == bits_val(q@.skip(i as int)) * d + rem,
            decreases i,
        {
            i = i - 1;
            let b = self.bits[i];
            proof {
                lemma_bits_val_skip(self.bits@, i as int);
            }
            let ghost hq = bits_val(q@.skip(i + 1));
            let ghost qs = q@.skip(i + 1);
            let ghost r0 = rem;
            let ghost hi = bits_val(self.bits@.skip(i + 1));
            let t: u64 = 2 * rem + (if b { 1u64 } else { 0u64 });
            if t >= d {
                rem = t - d;
                q.set(i, true);
            } else {
                rem = t;
                q.set(i, false);
            }
            proof {
                assert(q@.skip(i + 1) =~= qs);
                lemma_bits_val_skip(q@, i as int);
                let qi = b2n(q@[i as int]);
                assert(b2n(b) + 2 * hi == (qi + 2 * hq) * d + rem) by (nonlinear_arith)
                    requires
                        hi == hq * d + r0,
                        t == 2 * r0 + b2n(b),
                        t >= d ==> qi == 1 && rem == t - d,
                        t < d ==> qi == 0 && rem == t,
                ;
            }
        }
        proof {
            assert(self.bits@.skip(0) =~= self.bits@);
            assert(q@.skip(0) =~= q@);
            lemma_fundamental_div_mod_converse(
                self@ as int,
                d as int,
                bits_val(q@) as int,
                rem as int,
            );
        }
        (BigNat { bits: q }, rem)
    }

    /// `self * other`.
    pub fn mul(&self, other: &BigNat) -> (r: BigNat)
        ensures
            r@ == self@ * other@,
    {
        let n = self.bits.len();
        let mut acc = BigNat::zero();
        let mut i: usize = n;
        proof {
            assert(self.bits@.skip(n as int) =~= Seq::<bool>::empty());
        }
        while i > 0
            invariant
                i <= n,
                n == self.bits@.len(),
                acc@ == bits_val(self.bits@.skip(i as int)) * other@,
            decreases i,
        {
            i = i - 1;
            proof {
                lemma_bits_val_skip(self.bits@, i as int);
            }
            let ghost hi = bits_val(self.bits@.skip(i + 1));
            let doubled = acc.shl(1);
            proof {
                lemma2_to64();
            }
            if self.bits[i] {
                acc = doubled.add(other);
            } else {
                acc = doubled;
            }
            proof {
                let b = self.bits@[i as int];
                assert(acc@ == bits_val(self.bits@.skip(i as int)) * other@) by (nonlinear_arith)
                    requires
                        bits_val(self.bits@.skip(i as int)) == b2n(b) + 2 * hi,
                        acc@ == hi * other@ * 2 + b2n(b) * other@,
                ;
            }
        }
        proof {
            assert(self.bits@.skip(0) =~= self.bits@);
        }
        acc
    }

    /// The decimal digits of `self`, most significant first.
    pub fn to_decimal(&self) -> (r: Vec<char>)
        ensures
            r@ == decimal(self@),
        decreases self@,
    {
        let (q, rem) = self.divmod_small(10);
        if q.is_zero() {
            let mut v: Vec<char> = Vec::new();
            v.push(digit(rem as usize));
            proof {
                assert(v@ =~= seq![digit_char(self@)]);
            }
            v
        } else {
            let mut v = q.to_decimal();
            v.push(digit(rem as usize));
            v
        }
    }
}

/// An integer of any size: a sign beside a magnitude.
pub struct BigInt {
    pub negative: bool,
    pub magnitude: BigNat,
}

impl View for BigInt {
    type V = int;

    open spec fn view(&self) -> int {
        if self.negative {
            -(self.magnitude@ as int)
        } else {
            self.magnitude@ as int
        }
    }
}

impl BigInt {
    /// The natural number `n`.
    pub fn from_nat(n: BigNat) -> (r: BigInt)
        ensures
            r@ == n@,
    {
        BigInt { negative: false, magnitude: n }
    }

    /// The value of a 32-bit integer.
    pub fn from_i32(v: i32) -> (r: BigInt)
        ensures
            r@ == v,
    {
        if v < 0 {
            let m: u64 = (0i64 - (v as i64)) as u64;
            BigInt { negative: true, magnitude: BigNat::from_u64(m) }
        } else {
            BigInt { negative: false, magnitude: BigNat::from_u64(v as u64) }
        }
    }

    /// A copy of `self`.
    pub fn copy(&self) -> (r: BigInt)
        ensures
            r@ == self@,
    {
        BigInt { negative: self.negative, magnitude: self.magnitude.copy() }
    }
}

} // verus!
