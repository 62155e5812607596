//! The prover input file of the Poseidon token-derivation circuit: the
//! identities, the nonces, and their Poseidon hashes, one per line.
use vstd::prelude::*;
use rand::{Rng, SeedableRng};
use crate::bignat::BigNat;
use crate::packing::{pack_vector, packed, pad_spec};
use crate::pcs::{bracketed, id_bytes, id_parses, line_items};
use crate::poseidon::{PoseidonConstants, poseidon_hash, poseidon_spec, nats_val, nats_to_ints};
use crate::text::{
    CharClass, chars_view, decimal, digit_char, digits_value, digit_value, all_digits, is_digit,
    is_space, in_class, lead_count, trail_count, split_spec, trim_spec, trim_class_spec,
    u8_literal, unsigned_digits, usize_to_decimal, lemma_decimal_digits,
};

verus! {

/// Byte values as integers.
pub open spec fn bytes_val(b: Seq<u8>) -> Seq<int> {
    Seq::new(b.len(), |i: int| b[i] as int)
}

/// The items of a byte array as `{:?}` writes them: the decimal values
/// separated by `", "`.
pub open spec fn items_text(b: Seq<u8>) -> Seq<char>
    decreases b.len(),
{
    if b.len() == 0 {
        Seq::empty()
    } else if b.len() == 1 {
        decimal(b[0] as nat)
    } else {
        items_text(b.drop_last()) + seq![',', ' '] + decimal(b.last() as nat)
    }
}

/// A byte array as `{:?}` writes it: `[1, 2, 3]`.
pub open spec fn byte_array_text(b: Seq<u8>) -> Seq<char> {
    seq!['['] + items_text(b) + seq![']']
}

/// Writes a byte array as `{:?}` does.
pub fn byte_array_line(b: &Vec<u8>) -> (r: Vec<char>)
    ensures
        r@ == byte_array_text(b@),
{
    let mut out: Vec<char> = Vec::new();
    out.push('[');
    let mut i: usize = 0;
    proof {
        assert(b@.take(0) =~= Seq::<u8>::empty());
        assert(out@ =~= seq!['['] + items_text(b@.take(0)));
    }
    while i < b.len()
        invariant
            i <= b@.len(),
            out@ == seq!['['] + items_text(b@.take(i as int)),
        decreases b@.len() - i,
    {
        let d = usize_to_decimal(b[i] as usize);
        proof {
            assert(b@.take(i + 1).drop_last() =~= b@.take(i as int));
            assert(b@.take(i + 1).last() == b@[i as int]);
        }
        let ghost before = out@;
        if i > 0 {
            out.push(',');
            out.push(' ');
        }
        let mut d = d;
        out.append(&mut d);
        proof {
            if i == 0 {
                assert(items_text(b@.take(1)) == decimal(b@[0] as nat));
            }
            assert(out@ =~= seq!['['] + items_text(b@.take(i + 1)));
        }
        i = i + 1;
    }
    out.push(']');
    proof {
        assert(b@.take(b@.len() as int) =~= b@);
        assert(out@ =~= byte_array_text(b@));
    }
    out
}

// ---------------------------------------------------------------------------
// What is written reads back.
// ---------------------------------------------------------------------------

/// Item `i` of a byte array as `{:?}` writes it, with its leading space.
pub open spec fn item_text(b: Seq<u8>, i: int) -> Seq<char> {
    if i == 0 {
        decimal(b[0] as nat)
    } else {
        seq![' '] + decimal(b[i] as nat)
    }
}

proof fn lemma_no_comma(s: Seq<char>)
    requires
        all_digits(s),
    ensures
        split_spec(s, ',') == seq![s],
    decreases s.len(),
{
    assert(is_digit(s[s.len() - 1]));
    if s.len() == 1 {
        assert(s.drop_last() =~= Seq::<char>::empty());
        let prev = split_spec(s.drop_last(), ',');
        assert(prev == seq![Seq::<char>::empty()]);
        assert(Seq::<char>::empty().push(s.last()) =~= s);
        assert(prev.update(0, prev.last().push(s.last())) =~= seq![s]);
    } else {
        let p = s.drop_last();
        assert forall|i: int| 0 <= i < p.len() implies is_digit(#[trigger] p[i]) by {
            assert(p[i] == s[i]);
        }
        lemma_no_comma(p);
        assert(p.push(s.last()) =~= s);
        let prev = split_spec(p, ',');
        assert(prev.update(0, prev.last().push(s.last())) =~= seq![s]);
    }
}

/// Splitting `s` followed by a comma and a piece without commas gives the
/// pieces of `s` and then that piece.
proof fn lemma_split_after_comma(s: Seq<char>, t: Seq<char>)
    requires
        forall|i: int| 0 <= i < t.len() ==> #[trigger] t[i] != ',',
    ensures
        split_spec(s + seq![','] + t, ',') == split_spec(s, ',').push(t),
    decreases t.len(),
{
    let u = s + seq![','] + t;
    crate::text::lemma_split_len(s, ',');
    if t.len() == 0 {
        assert(u =~= s.push(','));
        assert(u.drop_last() =~= s);
        assert(u.last() == ',');
        assert(t =~= Seq::<char>::empty());
    } else {
        let tp = t.drop_last();
        assert forall|i: int| 0 <= i < tp.len() implies #[trigger] tp[i] != ',' by {
            assert(tp[i] == t[i]);
        }
        lemma_split_after_comma(s, tp);
        assert(u.drop_last() =~= s + seq![','] + tp);
        assert(u.last() == t.last());
        assert(t[t.len() - 1] != ',');
        assert(tp.push(t.last()) =~= t);
        let prev = split_spec(s, ',').push(tp);
        assert(prev.update(prev.len() - 1, prev.last().push(t.last())) =~= split_spec(s, ',').push(t));
    }
}

proof fn lemma_items_split(b: Seq<u8>)
    requires
        b.len() >= 1,
    ensures
        split_spec(items_text(b), ',') == Seq::new(b.len(), |i: int| item_text(b, i)),
    decreases b.len(),
{
    lemma_decimal_digits(b.last() as nat);
    if b.len() == 1 {
        lemma_decimal_digits(b[0] as nat);
        lemma_no_comma(decimal(b[0] as nat));
        assert(seq![decimal(b[0] as nat)] =~= Seq::new(1, |i: int| item_text(b, i)));
    } else {
        let p = b.drop_last();
        lemma_items_split(p);
        let t = seq![' '] + decimal(b.last() as nat);
        assert forall|i: int| 0 <= i < t.len() implies #[trigger] t[i] != ',' by {
            if i > 0 {
                assert(t[i] == decimal(b.last() as nat)[i - 1]);
                assert(is_digit(decimal(b.last() as nat)[i - 1]));
            }
        }
        assert(items_text(b) =~= items_text(p) + seq![','] + t);
        lemma_split_after_comma(items_text(p), t);
        assert forall|i: int| 0 <= i < p.len() implies item_text(p, i) == item_text(b, i) by {
            assert(p[i] == b[i]);
        }
        assert(Seq::new(p.len(), |i: int| item_text(p, i)).push(t) =~= Seq::new(
            b.len(),
            |i: int| item_text(b, i),
        ));
    }
}

proof fn lemma_trim_digits(s: Seq<char>)
    requires
        all_digits(s),
    ensures
        trim_spec(s) == s,
        trim_spec(seq![' '] + s) == s,
{
    assert(!is_space(s[0]));
    assert(!is_space(s.last()));
    assert(lead_count(s, CharClass::Space) == 0);
    assert(s.skip(0) =~= s);
    assert(trail_count(s, CharClass::Space) == 0);
    assert(s.take(s.len() as int) =~= s);
    let t = seq![' '] + s;
    assert(in_class(t[0], CharClass::Space));
    assert(t.skip(1) =~= s);
    assert(lead_count(t, CharClass::Space) == 1);
}

/// A byte array that `{:?}` writes into the input file reads back, item by
/// item, as the same bytes.
pub proof fn lemma_byte_array_reads_back(b: Seq<u8>)
    requires
        1 <= b.len() <= 0x0100_0000,
    ensures
        id_parses(byte_array_text(b)),
        id_bytes(byte_array_text(b)) == bytes_val(b),
{
    let l = byte_array_text(b);
    assert(l.subrange(1, l.len() - 1) =~= items_text(b));
    lemma_items_split(b);
    assert(line_items(l) == Seq::new(b.len(), |i: int| item_text(b, i)));
    assert forall|i: int| 0 <= i < b.len() implies #[trigger] trim_spec(item_text(b, i)) == decimal(
        b[i] as nat,
    ) by {
        lemma_decimal_digits(b[i] as nat);
        lemma_trim_digits(decimal(b[i] as nat));
    }
    assert forall|i: int| 0 <= i < b.len() implies #[trigger] u8_literal(trim_spec(item_text(b, i)))
        == Some(b[i]) by {
        let d = decimal(b[i] as nat);
        lemma_decimal_digits(b[i] as nat);
        assert(trim_spec(item_text(b, i)) == d);
        assert(d[0] != '+');
        assert(unsigned_digits(d) == d);
    }
    assert(items_text(b).len() <= 5 * b.len() - 2) by {
        lemma_items_len(b);
    }
    assert(id_bytes(l) =~= bytes_val(b));
}

proof fn lemma_decimal_len(n: nat)
    requires
        n < 256,
    ensures
        1 <= decimal(n).len() <= 3,
{
    if n >= 10 {
        assert(decimal(n) == decimal(n / 10).push(digit_char(n % 10)));
        if n / 10 >= 10 {
            assert(decimal(n / 10) == decimal(n / 100).push(digit_char((n / 10) % 10)));
            assert(n / 100 < 10);
        }
    }
}

proof fn lemma_items_len(b: Seq<u8>)
    requires
        b.len() >= 1,
    ensures
        items_text(b).len() <= 5 * b.len() - 2,
    decreases b.len(),
{
    lemma_decimal_len(b.last() as nat);
    if b.len() > 1 {
        lemma_items_len(b.drop_last());
    } else {
        lemma_decimal_len(b[0] as nat);
    }
}

// ---------------------------------------------------------------------------
// Hashes of byte strings.
// ---------------------------------------------------------------------------

/// The bytes packed 31 to a field element (little-endian, zero-padded).
pub open spec fn packed_bytes(b: Seq<u8>) -> Seq<int> {
    let s = bytes_val(b);
    let out: int = (s.len() + 30) as int / 31;
    Seq::new(out as nat, |i: int| packed(pad_spec(s, out * 31).subrange(31 * i, 31 * (i + 1))))
}

/// The Poseidon hash of the bytes packed 31 to a field element.
pub open spec fn bytes_hash(b: Seq<u8>, consts: PoseidonConstants) -> int {
    poseidon_spec(packed_bytes(b), consts)
}

/// `n` bytes pack into one to six field elements, and the constants cover
/// the state width their hash needs.
pub open spec fn hashable(n: int, consts: PoseidonConstants) -> bool {
    1 <= n <= 186 && consts.supports((n + 30) / 31 + 1)
}

/// Hashes a byte string: its bytes are packed 31 to a field element and
/// the elements are hashed with Poseidon.
pub fn hash_bytes(b: &Vec<u8>, consts: &PoseidonConstants) -> (r: BigNat)
    requires
        hashable(b@.len() as int, *consts),
    ensures
        r@ == bytes_hash(b@, *consts),
{
    let mut v: Vec<BigNat> = Vec::new();
    let mut i: usize = 0;
    while i < b.len()
        invariant
            i <= b@.len(),
            nats_val(v@) == bytes_val(b@.take(i as int)),
        decreases b@.len() - i,
    {
        let ghost before = nats_val(v@);
        let x = BigNat::from_u64(b[i] as u64);
        v.push(x);
        proof {
            assert(nats_val(v@) =~= before.push(b@[i as int] as int));
            assert(bytes_val(b@.take(i + 1)) =~= bytes_val(b@.take(i as int)).push(b@[i as int] as int));
        }
        i = i + 1;
    }
    proof {
        assert(b@.take(b@.len() as int) =~= b@);
    }
    let words = pack_vector(v, 248, 8);
    proof {
        assert(248usize / 8usize == 31);
        assert(nats_val(words@) =~= packed_bytes(b@));
    }
    poseidon_hash(&nats_to_ints(&words), consts)
}

/// `a` followed by `b` and `c`.
fn concat3(a: &Vec<u8>, b: &Vec<u8>, c: &Vec<u8>) -> (r: Vec<u8>)
    ensures
        r@ == a@ + b@ + c@,
{
    let mut out = a.clone();
    let mut x = b.clone();
    let mut y = c.clone();
    proof {
        assert(out@ =~= a@);
        assert(x@ =~= b@);
        assert(y@ =~= c@);
    }
    out.append(&mut x);
    out.append(&mut y);
    out
}

// ---------------------------------------------------------------------------
// The lines of the input file.
// ---------------------------------------------------------------------------

/// The identity hash the file carries: with `bit` 1 the hash of the nonce,
/// identity A and identity B; otherwise that of the nonce, B and A.
pub open spec fn chosen_hash(
    id_a: Seq<u8>,
    id_b: Seq<u8>,
    nonce: Seq<u8>,
    bit: u8,
    consts: PoseidonConstants,
) -> int {
    if bit == 1 {
        bytes_hash(nonce + id_a + id_b, consts)
    } else {
        bytes_hash(nonce + id_b + id_a, consts)
    }
}

/// The lines of the input file: identity A, the lines of the blind
/// signature, identity B, the nonce of the identity hash, the bit, the
/// chosen identity hash, the nonce of the old token, and the old token (the
/// hash of its nonce and identity A).
pub open spec fn poseidon_input_text(
    id_a: Seq<u8>,
    signing: Seq<Seq<char>>,
    id_b: Seq<u8>,
    nonce: Seq<u8>,
    bit: u8,
    old_nonce: Seq<u8>,
    consts: PoseidonConstants,
) -> Seq<Seq<char>> {
    seq![byte_array_text(id_a)] + signing + seq![
        byte_array_text(id_b),
        byte_array_text(nonce),
        decimal(bit as nat),
        decimal(chosen_hash(id_a, id_b, nonce, bit, consts) as nat),
        byte_array_text(old_nonce),
        decimal(bytes_hash(old_nonce + id_a, consts) as nat),
    ]
}

/// Writes the lines of the input file.
pub fn poseidon_input_lines(
    id_a: &Vec<u8>,
    signing: Vec<Vec<char>>,
    id_b: &Vec<u8>,
    nonce: &Vec<u8>,
    bit: u8,
    old_nonce: &Vec<u8>,
    consts: &PoseidonConstants,
) -> (r: Vec<Vec<char>>)
    requires
        hashable((nonce@.len() + id_a@.len() + id_b@.len()) as int, *consts),
        hashable((old_nonce@.len() + id_a@.len()) as int, *consts),
    ensures
        chars_view(r@) == poseidon_input_text(
            id_a@,
            chars_view(signing@),
            id_b@,
            nonce@,
            bit,
            old_nonce@,
            *consts,
        ),
{
    let h1_input = concat3(nonce, id_a, id_b);
    let h1 = hash_bytes(&h1_input, consts);
    let h2_input = concat3(nonce, id_b, id_a);
    let h2 = hash_bytes(&h2_input, consts);
    let empty: Vec<u8> = Vec::new();
    let t_input = concat3(old_nonce, id_a, &empty);
    proof {
        assert(old_nonce@ + id_a@ + empty@ =~= old_nonce@ + id_a@);
    }
    let old_token = hash_bytes(&t_input, consts);
    let mut lines: Vec<Vec<char>> = Vec::new();
    lines.push(byte_array_line(id_a));
    let ghost head = chars_view(lines@);
    let ghost sv = chars_view(signing@);
    let mut signing = signing;
    lines.append(&mut signing);
    proof {
        assert(chars_view(lines@) =~= head + sv);
    }
    let ghost mid = chars_view(lines@);
    lines.push(byte_array_line(id_b));
    lines.push(byte_array_line(nonce));
    lines.push(usize_to_decimal(bit as usize));
    if bit == 1 {
        lines.push(h1.to_decimal());
    } else {
        lines.push(h2.to_decimal());
    }
    lines.push(byte_array_line(old_nonce));
    lines.push(old_token.to_decimal());
    proof {
        crate::poseidon::lemma_poseidon_nonneg(packed_bytes(h1_input@), *consts);
        crate::poseidon::lemma_poseidon_nonneg(packed_bytes(h2_input@), *consts);
        crate::poseidon::lemma_poseidon_nonneg(packed_bytes(t_input@), *consts);
        assert(chars_view(lines@) =~= poseidon_input_text(
            id_a@,
            sv,
            id_b@,
            nonce@,
            bit,
            old_nonce@,
            *consts,
        ));
    }
    lines
}

// ---------------------------------------------------------------------------
// Seeded identities and the random bit.
// ---------------------------------------------------------------------------

/// The bytes that a `StdRng` seeded with `seed` by `seed_from_u64` writes
/// into a buffer of `n` bytes with `Rng::fill`. `StdRng` is deterministic
/// for one version of `rand` but may change between versions: the name is
/// tied to the version locked in `Cargo.lock` (0.8.8).
pub uninterp spec fn seeded_bytes(seed: u64, n: usize) -> Seq<u8>;

/// `StdRng::seed_from_u64(seed)` and `Rng::fill` on a buffer of `n` zero
/// bytes: the contract claims that the buffer it gives back is the named
/// result for these arguments, `n` bytes long.
#[verifier::external_body]
fn seeded_fill(seed: u64, n: usize) -> (r: Vec<u8>)
    ensures
        r@ == seeded_bytes(seed, n),
        r@.len() == n,
{
    let mut rng = rand::rngs::StdRng::seed_from_u64(seed);
    let mut buf = vec![0u8; n];
    rng.fill(&mut buf[..]);
    buf
}

/// `Rng::gen_range(0..=1)` on `thread_rng()`: the contract claims only that
/// the value drawn is 0 or 1; which one comes out is left unsaid.
#[verifier::external_body]
fn random_bit() -> (r: u8)
    ensures
        r <= 1,
{
    rand::thread_rng().gen_range(0..=1u8)
}

/// The identities and nonces of the input file, each drawn from a generator
/// with a fixed seed: identity A (8 bytes, seed 42), identity B (8 bytes,
/// seed 100), the nonce of the identity hash (32 bytes, seed 101) and the
/// nonce of the old token (32 bytes, seed 153).
pub fn issuance_values() -> (r: (Vec<u8>, Vec<u8>, Vec<u8>, Vec<u8>))
    ensures
        r.0@ == seeded_bytes(42, 8),
        r.1@ == seeded_bytes(100, 8),
        r.2@ == seeded_bytes(101, 32),
        r.3@ == seeded_bytes(153, 32),
        r.0@.len() == 8 && r.1@.len() == 8 && r.2@.len() == 32 && r.3@.len() == 32,
{
    (seeded_fill(42, 8), seeded_fill(100, 8), seeded_fill(101, 32), seeded_fill(153, 32))
}

/// The lines of the input file for the seeded identities and nonces, with
/// the lines of the blind signature after identity A and a random choice of
/// the identity hash.
pub fn input_poseidon_lines(signing: Vec<Vec<char>>, consts: &PoseidonConstants) -> (r: Vec<
    Vec<char>,
>)
    requires
        consts.supports(3),
    ensures
        exists|bit: u8|
            bit <= 1 && chars_view(r@) == #[trigger] poseidon_input_text(
                seeded_bytes(42, 8),
                chars_view(signing@),
                seeded_bytes(100, 8),
                seeded_bytes(101, 32),
                bit,
                seeded_bytes(153, 32),
                *consts,
            ),
{
    let (id_a, id_b, nonce, old_nonce) = issuance_values();
    let bit = random_bit();
    proof {
        assert((32int + 8 + 8 + 30) / 31 + 1 == 3);
        assert((32int + 8 + 30) / 31 + 1 == 3);
    }
    poseidon_input_lines(&id_a, signing, &id_b, &nonce, bit, &old_nonce, consts)
}

} // verus!
