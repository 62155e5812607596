//! Reading the Poseidon round constants and MDS matrices from the lines of a
//! ZoKrates constants file.
use vstd::prelude::*;
use vstd::arithmetic::power2::{pow2, lemma2_to64};
use crate::bignat::{BigInt, BigNat};
use crate::poseidon::ints_val;
use crate::text::{
    CharClass, chars_view, contains_chars, occurs, split, split_spec, split_any, split_any_spec, trim,
    trim_spec, trim_class, trim_class_spec, is_digit, digit_value, parse_i32, i32_literal,
    parse_usize, usize_literal, all_digits, digits_value, decimal, lemma_decimal_digits,
};

verus! {

/// Why a constants file could not be read.
#[derive(PartialEq, Eq, Debug, Clone, Copy)]
pub enum ReadError {
    /// An entry of a data line that is not a decimal integer.
    BadNumber,
}

/// The markers the reader looks for in a line.
#[derive(PartialEq, Eq, Debug, Clone, Copy)]
pub enum Marker {
    /// `const field[`, the start of a declaration
    ConstField,
    /// `[`
    Open,
    /// `]`
    Close,
    /// `...[`, a spread of repeated values
    Repeat,
    /// `[0;`, a row of repeated zeros
    ZeroRow,
    /// `POSEIDON_M`, the name of the matrices
    MatrixName,
}

/// The characters of a marker.
pub open spec fn marker_chars(m: Marker) -> Seq<char> {
    match m {
        Marker::ConstField => seq!['c', 'o', 'n', 's', 't', ' ', 'f', 'i', 'e', 'l', 'd', '['],
        Marker::Open => seq!['['],
        Marker::Close => seq![']'],
        Marker::Repeat => seq!['.', '.', '.', '['],
        Marker::ZeroRow => seq!['[', '0', ';'],
        Marker::MatrixName => seq!['P', 'O', 'S', 'E', 'I', 'D', 'O', 'N', '_', 'M'],
    }
}

/// Line `l` contains marker `m`.
pub open spec fn marked(l: Seq<char>, m: Marker) -> bool {
    occurs(l, marker_chars(m))
}

fn marker(m: Marker) -> (r: Vec<char>)
    ensures
        r@ == marker_chars(m),
{
    let r = match m {
        Marker::ConstField => vec!['c', 'o', 'n', 's', 't', ' ', 'f', 'i', 'e', 'l', 'd', '['],
        Marker::Open => vec!['['],
        Marker::Close => vec![']'],
        Marker::Repeat => vec!['.', '.', '.', '['],
        Marker::ZeroRow => vec!['[', '0', ';'],
        Marker::MatrixName => vec!['P', 'O', 'S', 'E', 'I', 'D', 'O', 'N', '_', 'M'],
    };
    proof {
        assert(r@ =~= marker_chars(m));
    }
    r
}

/// Whether line `l` contains marker `m`.
pub fn line_has(l: &Vec<char>, m: Marker) -> (r: bool)
    ensures
        r == marked(l@, m),
{
    let p = marker(m);
    contains_chars(l, &p)
}

// ---------------------------------------------------------------------------
// Decimal integers.
// ---------------------------------------------------------------------------

/// The ASCII white space that the decimal reader skips.
pub open spec fn is_blank(c: char) -> bool {
    c == ' ' || c == '\t' || c == '\n' || c == '\x0b' || c == '\x0c' || c == '\r'
}

/// One character of a decimal integer. The state is (a sign was read, the
/// sign is `-`, a digit was read, the value of the digits so far).
pub open spec fn decimal_step(st: (bool, bool, bool, nat), c: char) -> Option<
    (bool, bool, bool, nat),
> {
    if (c == '+' || c == '-') && !st.0 && !st.2 {
        Some((true, c == '-', false, st.3))
    } else if (c == '_' && st.2) || is_blank(c) {
        Some(st)
    } else if is_digit(c) {
        Some((st.0, st.1, true, (st.3 * 10 + digit_value(c)) as nat))
    } else {
        None
    }
}

/// The state after reading all of `s`, or `None` at a character that cannot
/// stand where it does.
pub open spec fn decimal_scan(s: Seq<char>) -> Option<(bool, bool, bool, nat)>
    decreases s.len(),
{
    if s.len() == 0 {
        Some((false, false, false, 0))
    } else {
        match decimal_scan(s.drop_last()) {
            Some(st) => decimal_step(st, s.last()),
            None => None,
        }
    }
}

/// The integer that `s` spells in base ten: an optional sign, then at least
/// one digit; ASCII white space is skipped everywhere and `_` after the first
/// digit.
pub open spec fn decimal_value(s: Seq<char>) -> Option<int> {
    match decimal_scan(s) {
        Some(st) => if st.2 {
            Some(
                if st.1 {
                    -(st.3 as int)
                } else {
                    st.3 as int
                },
            )
        } else {
            None
        },
        None => None,
    }
}

/// `v * 10 + d`.
fn times_ten_plus(v: &BigNat, d: u64) -> (r: BigNat)
    ensures
        r@ == v@ * 10 + d,
{
    let a = v.shl(3);
    let b = v.shl(1);
    let s = a.add(&b);
    let dd = BigNat::from_u64(d);
    proof {
        lemma2_to64();
        assert(pow2(3) == 8 && pow2(1) == 2);
    }
    s.add(&dd)
}

/// Reads the decimal integer `s` spells: its sign and magnitude, or `None`
/// where `s` spells none.
pub fn parse_decimal(s: &[char]) -> (r: Option<(bool, BigNat)>)
    ensures
        r is None <==> decimal_value(s@) is None,
        r matches Some((neg, m)) ==> decimal_value(s@) == Some(
            if neg {
                -(m@ as int)
            } else {
                m@ as int
            },
        ),
{
    let n = s.len();
    let mut has_sign = false;
    let mut neg = false;
    let mut has_digits = false;
    let mut v = BigNat::zero();
    let mut i: usize = 0;
    proof {
        assert(s@.take(0) =~= Seq::<char>::empty());
    }
    while i < n
        invariant
            i <= n,
            n == s@.len(),
            decimal_scan(s@.take(i as int)) == Some((has_sign, neg, has_digits, v@)),
        decreases n - i,
    {
        let c = s[i];
        proof {
            assert(s@.take(i + 1).drop_last() =~= s@.take(i as int));
            assert(s@.take(i + 1).last() == c);
        }
        if (c == '+' || c == '-') && !has_sign && !has_digits {
            has_sign = true;
            neg = c == '-';
        } else if (c == '_' && has_digits) || c == ' ' || c == '\t' || c == '\n' || c == '\x0b'
            || c == '\x0c' || c == '\r' {
        } else if '0' <= c && c <= '9' {
            let d: u64 = ((c as u32) - ('0' as u32)) as u64;
            v = times_ten_plus(&v, d);
            has_digits = true;
        } else {
            proof {
                assert(decimal_scan(s@.take(i + 1)) is None);
                lemma_decimal_scan_stuck(s@, i as int + 1);
                assert(s@.take(n as int) =~= s@);
            }
            return None;
        }
        i = i + 1;
    }
    proof {
        assert(s@.take(n as int) =~= s@);
    }
    if has_digits {
        Some((neg, v))
    } else {
        None
    }
}

/// Once reading fails, it fails on every longer input.
proof fn lemma_decimal_scan_stuck(s: Seq<char>, k: int)
    requires
        0 <= k <= s.len(),
        decimal_scan(s.take(k)) is None,
    ensures
        decimal_scan(s) is None,
    decreases s.len() - k,
{
    if k == s.len() {
        assert(s.take(k) =~= s);
    } else {
        assert(s.take(k + 1).drop_last() =~= s.take(k));
        lemma_decimal_scan_stuck(s, k + 1);
    }
}

/// Reading a run of digits gives its value.
proof fn lemma_scan_digits(s: Seq<char>)
    requires
        all_digits(s),
    ensures
        decimal_scan(s) == Some((false, false, true, digits_value(s) as nat)),
    decreases s.len(),
{
    let p = s.drop_last();
    assert(is_digit(s.last()));
    if p.len() == 0 {
        assert(decimal_scan(p) == Some((false, false, false, 0nat)));
        assert(digits_value(p) == 0);
    } else {
        assert forall|i: int| 0 <= i < p.len() implies is_digit(#[trigger] p[i]) by {
            assert(p[i] == s[i]);
        }
        lemma_scan_digits(p);
        lemma_digits_nonneg(p);
    }
    lemma_digits_nonneg(s);
}

proof fn lemma_digits_nonneg(s: Seq<char>)
    requires
        forall|i: int| 0 <= i < s.len() ==> is_digit(#[trigger] s[i]),
    ensures
        digits_value(s) >= 0,
    decreases s.len(),
{
    if s.len() > 0 {
        let p = s.drop_last();
        assert forall|i: int| 0 <= i < p.len() implies is_digit(#[trigger] p[i]) by {
            assert(p[i] == s[i]);
        }
        lemma_digits_nonneg(p);
        assert(is_digit(s[s.len() - 1]));
    }
}

/// A natural number written in decimal (as [`BigNat::to_decimal`] writes it)
/// reads back as itself (as [`parse_decimal`] reads it).
pub proof fn lemma_decimal_reads_back(n: nat)
    ensures
        decimal_value(decimal(n)) == Some(n as int),
{
    lemma_decimal_digits(n);
    lemma_scan_digits(decimal(n));
}

// ---------------------------------------------------------------------------
// Data lines.
// ---------------------------------------------------------------------------

/// What one comma-separated entry of a data line holds: the entry with every
/// character that is neither numeric nor `-` trimmed from both ends; nothing
/// where that leaves nothing, an error where the rest is not an integer.
pub open spec fn entry_value(p: Seq<char>) -> Result<Option<int>, ReadError> {
    let t = trim_class_spec(p, CharClass::NonNumber);
    if t.len() == 0 {
        Ok(None)
    } else {
        match decimal_value(t) {
            None => Err(ReadError::BadNumber),
            Some(v) => Ok(Some(v)),
        }
    }
}

/// The numbers of the entries `ps`, in order; the first entry in error
/// decides the error.
pub open spec fn entries_values(ps: Seq<Seq<char>>) -> Result<Seq<int>, ReadError>
    decreases ps.len(),
{
    if ps.len() == 0 {
        Ok(Seq::empty())
    } else {
        match entries_values(ps.drop_last()) {
            Err(e) => Err(e),
            Ok(vs) => match entry_value(ps.last()) {
                Err(e) => Err(e),
                Ok(None) => Ok(vs),
                Ok(Some(v)) => Ok(vs.push(v)),
            },
        }
    }
}

/// The numbers of data line `l`.
pub open spec fn line_numbers(l: Seq<char>) -> Result<Seq<int>, ReadError> {
    entries_values(split_spec(l, ','))
}

/// The number in one entry of a data line.
fn read_entry(p: &Vec<char>) -> (r: Result<Option<BigInt>, ReadError>)
    ensures
        match entry_value(p@) {
            Ok(None) => r matches Ok(None),
            Ok(Some(v)) => r matches Ok(Some(m)) && m@ == v,
            Err(e) => r == Err::<Option<BigInt>, ReadError>(e),
        },
{
    let t = trim_class(p, CharClass::NonNumber);
    if t.len() == 0 {
        return Ok(None);
    }
    match parse_decimal(&t) {
        None => Err(ReadError::BadNumber),
        Some((neg, m)) => Ok(Some(BigInt { negative: neg, magnitude: m })),
    }
}

proof fn lemma_entries_stuck(ps: Seq<Seq<char>>, k: int, e: ReadError)
    requires
        0 <= k <= ps.len(),
        entries_values(ps.take(k)) == Err::<Seq<int>, ReadError>(e),
    ensures
        entries_values(ps) == Err::<Seq<int>, ReadError>(e),
    decreases ps.len() - k,
{
    if k == ps.len() {
        assert(ps.take(k) =~= ps);
    } else {
        assert(ps.take(k + 1).drop_last() =~= ps.take(k));
        lemma_entries_stuck(ps, k + 1, e);
    }
}

/// The numbers of a data line.
pub fn read_line_numbers(l: &Vec<char>) -> (r: Result<Vec<BigInt>, ReadError>)
    ensures
        match line_numbers(l@) {
            Ok(ns) => r matches Ok(v) && ints_val(v@) == ns,
            Err(e) => r == Err::<Vec<BigInt>, ReadError>(e),
        },
{
    let parts = split(l, ',');
    let ghost ps = split_spec(l@, ',');
    let mut out: Vec<BigInt> = Vec::new();
    let mut i: usize = 0;
    proof {
        assert(ps.take(0) =~= Seq::<Seq<char>>::empty());
        assert(ints_val(out@) =~= Seq::<int>::empty());
        assert forall|j: int| 0 <= j < ps.len() implies #[trigger] ps[j] == parts@[j]@ by {
            assert(chars_view(parts@)[j] == parts@[j]@);
        }
    }
    while i < parts.len()
        invariant
            i <= parts@.len(),
            ps == split_spec(l@, ','),
            ps.len() == parts@.len(),
            forall|j: int| 0 <= j < ps.len() ==> #[trigger] ps[j] == parts@[j]@,
            entries_values(ps.take(i as int)) == Ok::<Seq<int>, ReadError>(ints_val(out@)),
        decreases parts@.len() - i,
    {
        proof {
            assert(ps.take(i + 1).drop_last() =~= ps.take(i as int));
            assert(ps.take(i + 1).last() == parts@[i as int]@);
        }
        match read_entry(&parts[i]) {
            Err(e) => {
                proof {
                    lemma_entries_stuck(ps, i + 1, e);
                    assert(ps.take(ps.len() as int) =~= ps);
                }
                return Err(e);
            },
            Ok(None) => {},
            Ok(Some(m)) => {
                let ghost before = ints_val(out@);
                out.push(m);
                proof {
                    assert(ints_val(out@) =~= before.push(m@));
                }
            },
        }
        i = i + 1;
    }
    proof {
        assert(ps.take(parts@.len() as int) =~= ps);
    }
    Ok(out)
}

// ---------------------------------------------------------------------------
// Lines that spread a repeated value.
// ---------------------------------------------------------------------------

/// The `;`-separated parts of a `[v; n]` line, each trimmed: the line is
/// trimmed, then stripped of `.`, `[` and `]` at both ends.
pub open spec fn semi_parts(l: Seq<char>) -> Seq<Seq<char>> {
    let ps = split_spec(trim_class_spec(trim_spec(l), CharClass::Brackets), ';');
    Seq::new(ps.len(), |i: int| trim_spec(ps[i]))
}

/// `(v, n)` where the two parts read as an `i32` and a `usize`.
pub open spec fn repeat_of(parts: Seq<Seq<char>>) -> Option<(int, nat)> {
    if parts.len() == 2 && i32_literal(parts[0]) is Some && usize_literal(parts[1]) is Some {
        Some((i32_literal(parts[0])->0 as int, usize_literal(parts[1])->0 as nat))
    } else {
        None
    }
}

/// The non-empty pieces of `ps` after trimming, in order.
pub open spec fn kept_trimmed(ps: Seq<Seq<char>>) -> Seq<Seq<char>>
    decreases ps.len(),
{
    if ps.len() == 0 {
        Seq::empty()
    } else {
        let prev = kept_trimmed(ps.drop_last());
        if trim_spec(ps.last()).len() > 0 {
            prev.push(trim_spec(ps.last()))
        } else {
            prev
        }
    }
}

/// The parts of a `...[[v; n]; k]` line: the line is trimmed and stripped of
/// `.` at both ends, cut at every `[`, `;` and `]`, and the non-empty trimmed
/// pieces are kept.
pub open spec fn nested_parts(l: Seq<char>) -> Seq<Seq<char>> {
    kept_trimmed(split_any_spec(trim_class_spec(trim_spec(l), CharClass::Dots), seq!['[', ';', ']']))
}

/// `(v, n, k)` where the three parts read as an `i32` and two `usize`s.
pub open spec fn nested_repeat_of(parts: Seq<Seq<char>>) -> Option<(int, nat, nat)> {
    if parts.len() == 3 && i32_literal(parts[0]) is Some && usize_literal(parts[1]) is Some
        && usize_literal(parts[2]) is Some {
        Some(
            (
                i32_literal(parts[0])->0 as int,
                usize_literal(parts[1])->0 as nat,
                usize_literal(parts[2])->0 as nat,
            ),
        )
    } else {
        None
    }
}

/// `n` copies of `v`.
pub open spec fn copies<T>(v: T, n: nat) -> Seq<T> {
    Seq::new(n, |i: int| v)
}

/// The parts of a `[v; n]` line.
fn read_semi_parts(l: &Vec<char>) -> (r: Vec<Vec<char>>)
    ensures
        chars_view(r@) == semi_parts(l@),
{
    let t = trim(l);
    let b = trim_class(&t, CharClass::Brackets);
    let ps = split(&b, ';');
    let ghost pv = split_spec(b@, ';');
    let mut out: Vec<Vec<char>> = Vec::new();
    let mut i: usize = 0;
    while i < ps.len()
        invariant
            i <= ps@.len(),
            pv == chars_view(ps@),
            out@.len() == i,
            forall|j: int| 0 <= j < i ==> #[trigger] out@[j]@ == trim_spec(pv[j]),
        decreases ps@.len() - i,
    {
        let x = trim(&ps[i]);
        proof {
            assert(pv[i as int] == ps@[i as int]@);
        }
        out.push(x);
        i = i + 1;
    }
    proof {
        assert(chars_view(out@) =~= semi_parts(l@));
    }
    out
}

/// `(v, n)` of a `[v; n]` line.
fn read_repeat(parts: &Vec<Vec<char>>) -> (r: Option<(i32, usize)>)
    ensures
        match repeat_of(chars_view(parts@)) {
            Some((v, n)) => r matches Some((a, b)) && a == v && b == n,
            None => r is None,
        },
{
    if parts.len() != 2 {
        return None;
    }
    proof {
        assert(chars_view(parts@)[0] == parts@[0]@);
        assert(chars_view(parts@)[1] == parts@[1]@);
    }
    match (parse_i32(&parts[0]), parse_usize(&parts[1])) {
        (Some(v), Some(n)) => Some((v, n)),
        _ => None,
    }
}

/// The parts of a `...[[v; n]; k]` line.
fn read_nested_parts(l: &Vec<char>) -> (r: Vec<Vec<char>>)
    ensures
        chars_view(r@) == nested_parts(l@),
{
    let t = trim(l);
    let d = trim_class(&t, CharClass::Dots);
    let seps = vec!['[', ';', ']'];
    proof {
        assert(seps@ =~= seq!['[', ';', ']']);
    }
    let ps = split_any(&d, &seps);
    let ghost pv = split_any_spec(d@, seq!['[', ';', ']']);
    let mut out: Vec<Vec<char>> = Vec::new();
    let mut i: usize = 0;
    proof {
        assert(pv.take(0) =~= Seq::<Seq<char>>::empty());
        assert(chars_view(out@) =~= Seq::<Seq<char>>::empty());
    }
    while i < ps.len()
        invariant
            i <= ps@.len(),
            pv == chars_view(ps@),
            chars_view(out@) == kept_trimmed(pv.take(i as int)),
        decreases ps@.len() - i,
    {
        let x = trim(&ps[i]);
        proof {
            assert(pv[i as int] == ps@[i as int]@);
            assert(pv.take(i + 1).drop_last() =~= pv.take(i as int));
            assert(pv.take(i + 1).last() == pv[i as int]);
        }
        if x.len() > 0 {
            let ghost before = chars_view(out@);
            out.push(x);
            proof {
                assert(chars_view(out@) =~= before.push(x@));
            }
        }
        i = i + 1;
    }
    proof {
        assert(pv.take(ps@.len() as int) =~= pv);
    }
    out
}

/// `(v, n, k)` of a `...[[v; n]; k]` line.
fn read_nested_repeat(parts: &Vec<Vec<char>>) -> (r: Option<(i32, usize, usize)>)
    ensures
        match nested_repeat_of(chars_view(parts@)) {
            Some((v, n, k)) => r matches Some((a, b, c)) && a == v && b == n && c == k,
            None => r is None,
        },
{
    if parts.len() != 3 {
        return None;
    }
    proof {
        assert(chars_view(parts@)[0] == parts@[0]@);
        assert(chars_view(parts@)[1] == parts@[1]@);
        assert(chars_view(parts@)[2] == parts@[2]@);
    }
    match (parse_i32(&parts[0]), parse_usize(&parts[1]), parse_usize(&parts[2])) {
        (Some(v), Some(n), Some(k)) => Some((v, n, k)),
        _ => None,
    }
}

/// Appends `n` copies of `v` to `row`.
fn push_copies(row: &mut Vec<BigInt>, v: i32, n: usize)
    ensures
        ints_val(final(row)@) == ints_val(old(row)@) + copies(v as int, n as nat),
{
    let ghost start = ints_val(row@);
    let mut i: usize = 0;
    while i < n
        invariant
            i <= n,
            ints_val(row@) == start + copies(v as int, i as nat),
        decreases n - i,
    {
        let ghost before = ints_val(row@);
        row.push(BigInt::from_i32(v));
        i = i + 1;
        proof {
            assert(ints_val(row@) =~= before.push(v as int));
            assert(start + copies(v as int, i as nat) =~= (start + copies(v as int, (i - 1) as nat)).push(v as int));
        }
    }
}

// ---------------------------------------------------------------------------
// The round constants: a two-level array.
// ---------------------------------------------------------------------------

/// Where the reader of the round constants stands: how deep it is in the
/// brackets of the declaration, the rows read so far, the row being read,
/// and whether the declaration has ended.
pub struct RowScan {
    pub depth: int,
    pub rows: Seq<Seq<int>>,
    pub row: Seq<int>,
    pub done: bool,
}

/// Before the first line.
pub open spec fn row_scan_start() -> RowScan {
    RowScan { depth: 0, rows: Seq::empty(), row: Seq::empty(), done: false }
}

/// The reader of the round constants after line `l`.
///
/// A `const field[` line opens the declaration, or ends it when the reader
/// is already two brackets deep; every other line with a `[` goes one bracket
/// deeper until two are open. Two deep, a `...[v; n]` line adds `n` copies of
/// `v` to the row, a line with `]` closes a non-empty row, and any other line
/// adds the numbers of its entries.
pub open spec fn row_step(st: RowScan, l: Seq<char>) -> Result<RowScan, ReadError> {
    if marked(l, Marker::ConstField) {
        if st.depth == 2 {
            Ok(RowScan { depth: st.depth, rows: st.rows, row: st.row, done: true })
        } else {
            Ok(RowScan { depth: st.depth + 1, rows: st.rows, row: st.row, done: st.done })
        }
    } else if st.depth != 2 && marked(l, Marker::Open) {
        Ok(RowScan { depth: st.depth + 1, rows: st.rows, row: st.row, done: st.done })
    } else if st.depth == 2 {
        if marked(l, Marker::Repeat) {
            match repeat_of(semi_parts(l)) {
                Some((v, n)) => Ok(
                    RowScan { depth: st.depth, rows: st.rows, row: st.row + copies(v, n), done: st.done },
                ),
                None => Ok(st),
            }
        } else if marked(l, Marker::Close) && st.row.len() != 0 {
            Ok(RowScan { depth: st.depth, rows: st.rows.push(st.row), row: Seq::empty(), done: st.done })
        } else {
            match line_numbers(l) {
                Ok(ns) => Ok(RowScan { depth: st.depth, rows: st.rows, row: st.row + ns, done: st.done }),
                Err(e) => Err(e),
            }
        }
    } else {
        Ok(st)
    }
}

/// The reader of the round constants after `lines`; it reads no further once
/// the declaration has ended or a line is in error.
pub open spec fn row_scan(lines: Seq<Seq<char>>) -> Result<RowScan, ReadError>
    decreases lines.len(),
{
    if lines.len() == 0 {
        Ok(row_scan_start())
    } else {
        match row_scan(lines.drop_last()) {
            Err(e) => Err(e),
            Ok(st) => if st.done {
                Ok(st)
            } else {
                row_step(st, lines.last())
            },
        }
    }
}

/// The numbers of several lines, one line after the other.
pub open spec fn joined_numbers(nums: Seq<Seq<int>>) -> Seq<int>
    decreases nums.len(),
{
    if nums.len() == 0 {
        Seq::empty()
    } else {
        joined_numbers(nums.drop_last()) + nums.last()
    }
}

/// A row of round constants written over several data lines holds the
/// numbers of all of them, in order: two brackets deep, lines that open or
/// close nothing and repeat nothing append their numbers to the row.
pub proof fn lemma_round_row_joins_lines(
    pre: Seq<Seq<char>>,
    st: RowScan,
    data: Seq<Seq<char>>,
    nums: Seq<Seq<int>>,
)
    requires
        row_scan(pre) == Ok::<RowScan, ReadError>(st),
        st.depth == 2,
        !st.done,
        data.len() == nums.len(),
        forall|i: int|
            0 <= i < data.len() ==> !marked(#[trigger] data[i], Marker::ConstField) && !marked(
                data[i],
                Marker::Repeat,
            ) && !marked(data[i], Marker::Close) && line_numbers(data[i]) == Ok::<
                Seq<int>,
                ReadError,
            >(nums[i]),
    ensures
        row_scan(pre + data) == Ok::<RowScan, ReadError>(
            RowScan { depth: 2, rows: st.rows, row: st.row + joined_numbers(nums), done: false },
        ),
    decreases data.len(),
{
    if data.len() == 0 {
        assert(pre + data =~= pre);
        assert(st.row + joined_numbers(nums) =~= st.row);
    } else {
        let d = data.drop_last();
        let n = nums.drop_last();
        assert forall|i: int| 0 <= i < d.len() implies !marked(#[trigger] d[i], Marker::ConstField)
            && !marked(d[i], Marker::Repeat) && !marked(d[i], Marker::Close) && line_numbers(d[i])
            == Ok::<Seq<int>, ReadError>(n[i]) by {
            assert(d[i] == data[i]);
        }
        lemma_round_row_joins_lines(pre, st, d, n);
        assert((pre + data).drop_last() =~= pre + d);
        let l = data[data.len() - 1];
        assert((pre + data).last() == l);
        assert(line_numbers(l) == Ok::<Seq<int>, ReadError>(nums.last()));
        assert(st.row + joined_numbers(n) + nums.last() =~= st.row + joined_numbers(nums));
    }
}

/// Values of a matrix of integers.
pub open spec fn rows_val(v: Seq<Vec<BigInt>>) -> Seq<Seq<int>> {
    Seq::new(v.len(), |i: int| ints_val(v[i]@))
}

/// Once the reader stops, the rest of the lines change nothing.
proof fn lemma_row_scan_stops(lines: Seq<Seq<char>>, k: int)
    requires
        0 <= k <= lines.len(),
        row_scan(lines.take(k)) is Err || (row_scan(lines.take(k)) matches Ok(st) && st.done),
    ensures
        row_scan(lines) == row_scan(lines.take(k)),
    decreases lines.len() - k,
{
    if k == lines.len() {
        assert(lines.take(k) =~= lines);
    } else {
        assert(lines.take(k + 1).drop_last() =~= lines.take(k));
        lemma_row_scan_stops(lines, k + 1);
    }
}

/// Once the declaration of the round constants has ended, or a line is in
/// error, the lines after it change nothing.
pub proof fn lemma_round_constants_ignore_rest(lines: Seq<Seq<char>>, more: Seq<Seq<char>>)
    requires
        row_scan(lines) is Err || (row_scan(lines) matches Ok(st) && st.done),
    ensures
        row_scan(lines + more) == row_scan(lines),
{
    assert((lines + more).take(lines.len() as int) =~= lines);
    lemma_row_scan_stops(lines + more, lines.len() as int);
}

/// Reads one line into the reader of the round constants; `Ok(true)` when
/// the declaration has ended.
fn row_advance(
    l: &Vec<char>,
    depth: &mut usize,
    rows: &mut Vec<Vec<BigInt>>,
    row: &mut Vec<BigInt>,
) -> (r: Result<bool, ReadError>)
    requires
        *old(depth) <= 2,
    ensures
        match row_step(
            RowScan {
                depth: *old(depth) as int,
                rows: rows_val(old(rows)@),
                row: ints_val(old(row)@),
                done: false,
            },
            l@,
        ) {
            Ok(st) => r == Ok::<bool, ReadError>(st.done) && st.depth == *final(depth) && *final(depth)
                <= 2 && st.rows == rows_val(final(rows)@) && st.row == ints_val(final(row)@),
            Err(e) => r == Err::<bool, ReadError>(e),
        },
{
    if line_has(l, Marker::ConstField) {
        if *depth == 2 {
            return Ok(true);
        }
        *depth = *depth + 1;
        return Ok(false);
    }
    if *depth != 2 && line_has(l, Marker::Open) {
        *depth = *depth + 1;
        return Ok(false);
    }
    if *depth == 2 {
        if line_has(l, Marker::Repeat) {
            let parts = read_semi_parts(l);
            match read_repeat(&parts) {
                Some((v, n)) => {
                    push_copies(row, v, n);
                },
                None => {},
            }
        } else if line_has(l, Marker::Close) && row.len() != 0 {
            let ghost before = rows_val(rows@);
            let mut done_row: Vec<BigInt> = Vec::new();
            std::mem::swap(row, &mut done_row);
            rows.push(done_row);
            proof {
                assert(rows_val(rows@) =~= before.push(ints_val(done_row@)));
                assert(ints_val(row@) =~= Seq::<int>::empty());
            }
        } else {
            match read_line_numbers(l) {
                Ok(ns) => {
                    let ghost before = row@;
                    let ghost added = ns@;
                    let mut ns = ns;
                    row.append(&mut ns);
                    proof {
                        assert(row@ == before + added);
                        assert(ints_val(row@) =~= ints_val(before) + ints_val(added));
                    }
                },
                Err(e) => {
                    return Err(e);
                },
            }
        }
    }
    Ok(false)
}

/// The round constants declared in the lines of a constants file: one row
/// per state width, read from the first declaration. Ends in an error at the
/// first entry that is not a decimal integer.
pub fn read_double_array(lines: &Vec<Vec<char>>) -> (r: Result<Vec<Vec<BigInt>>, ReadError>)
    ensures
        match row_scan(chars_view(lines@)) {
            Ok(st) => r matches Ok(v) && rows_val(v@) == st.rows,
            Err(e) => r == Err::<Vec<Vec<BigInt>>, ReadError>(e),
        },
{
    let ghost ls = chars_view(lines@);
    let mut depth: usize = 0;
    let mut rows: Vec<Vec<BigInt>> = Vec::new();
    let mut row: Vec<BigInt> = Vec::new();
    let mut i: usize = 0;
    proof {
        assert(ls.take(0) =~= Seq::<Seq<char>>::empty());
        assert(rows_val(rows@) =~= Seq::<Seq<int>>::empty());
        assert(ints_val(row@) =~= Seq::<int>::empty());
    }
    while i < lines.len()
        invariant
            i <= lines@.len(),
            ls == chars_view(lines@),
            depth <= 2,
            row_scan(ls.take(i as int)) == Ok::<RowScan, ReadError>(
                RowScan {
                    depth: depth as int,
                    rows: rows_val(rows@),
                    row: ints_val(row@),
                    done: false,
                },
            ),
        decreases lines@.len() - i,
    {
        proof {
            assert(ls.take(i + 1).drop_last() =~= ls.take(i as int));
            assert(ls.take(i + 1).last() == lines@[i as int]@);
        }
        match row_advance(&lines[i], &mut depth, &mut rows, &mut row) {
            Err(e) => {
                proof {
                    lemma_row_scan_stops(ls, i + 1);
                }
                return Err(e);
            },
            Ok(true) => {
                proof {
                    lemma_row_scan_stops(ls, i + 1);
                }
                return Ok(rows);
            },
            Ok(false) => {},
        }
        i = i + 1;
    }
    proof {
        assert(ls.take(lines@.len() as int) =~= ls);
    }
    Ok(rows)
}

// ---------------------------------------------------------------------------
// The MDS matrices: a three-level array.
// ---------------------------------------------------------------------------

/// Where the reader of the matrices stands: whether it has met the name of
/// the matrices, how deep it is in the brackets, the matrices read so far,
/// the rows of the matrix being read, the row being read, and whether the
/// declaration has ended.
pub struct MatrixScan {
    pub reading: bool,
    pub depth: int,
    pub mats: Seq<Seq<Seq<int>>>,
    pub rows: Seq<Seq<int>>,
    pub row: Seq<int>,
    pub done: bool,
}

/// Before the first line.
pub open spec fn matrix_scan_start() -> MatrixScan {
    MatrixScan {
        reading: false,
        depth: 0,
        mats: Seq::empty(),
        rows: Seq::empty(),
        row: Seq::empty(),
        done: false,
    }
}

/// `st` with `reading` set to `b`, depth `d`, and the given contents.
pub open spec fn matrix_state(
    b: bool,
    d: int,
    mats: Seq<Seq<Seq<int>>>,
    rows: Seq<Seq<int>>,
    row: Seq<int>,
    done: bool,
) -> MatrixScan {
    MatrixScan { reading: b, depth: d, mats, rows, row, done }
}

/// The reader of the matrices after line `l`.
///
/// Nothing happens before a line that names `POSEIDON_M`. From there on, a
/// `const field[` line opens the declaration, or ends it three brackets
/// deep. Fewer than three deep, a line with `[` but without `...[` goes one
/// bracket deeper, except that two deep a `[0; n]` line with two parts adds
/// a row of `n` copies of its value. Two deep, a `...[[v; n]; k]` line adds
/// `k` rows of `n` copies of `v`, and a line with `]` closes a non-empty
/// matrix. Three deep, a line with `]` closes a non-empty row and goes back
/// to two deep; any other line adds the numbers of its entries to the row.
pub open spec fn matrix_step(st: MatrixScan, l: Seq<char>) -> Result<MatrixScan, ReadError> {
    let b = st.reading || marked(l, Marker::MatrixName);
    if !b {
        Ok(st)
    } else if marked(l, Marker::ConstField) {
        if st.depth == 3 {
            Ok(matrix_state(b, st.depth, st.mats, st.rows, st.row, true))
        } else {
            Ok(matrix_state(b, st.depth + 1, st.mats, st.rows, st.row, st.done))
        }
    } else if st.depth != 3 && marked(l, Marker::Open) && !marked(l, Marker::Repeat) {
        if st.depth == 2 && marked(l, Marker::ZeroRow) && semi_parts(l).len() == 2 {
            match repeat_of(semi_parts(l)) {
                Some((v, n)) => Ok(
                    matrix_state(b, st.depth, st.mats, st.rows.push(copies(v, n)), st.row, st.done),
                ),
                None => Ok(matrix_state(b, st.depth, st.mats, st.rows, st.row, st.done)),
            }
        } else {
            Ok(matrix_state(b, st.depth + 1, st.mats, st.rows, st.row, st.done))
        }
    } else if st.depth == 2 && marked(l, Marker::Repeat) {
        match nested_repeat_of(nested_parts(l)) {
            Some((v, n, k)) => Ok(
                matrix_state(b, st.depth, st.mats, st.rows + copies(copies(v, n), k), st.row, st.done),
            ),
            None => Ok(matrix_state(b, st.depth, st.mats, st.rows, st.row, st.done)),
        }
    } else if st.depth == 2 && marked(l, Marker::Close) {
        if st.rows.len() != 0 {
            Ok(matrix_state(b, st.depth, st.mats.push(st.rows), Seq::empty(), st.row, st.done))
        } else {
            Ok(matrix_state(b, st.depth, st.mats, st.rows, st.row, st.done))
        }
    } else if st.depth == 3 {
        if marked(l, Marker::Close) && st.row.len() != 0 {
            Ok(matrix_state(b, 2, st.mats, st.rows.push(st.row), Seq::empty(), st.done))
        } else {
            match line_numbers(l) {
                Ok(ns) => Ok(matrix_state(b, st.depth, st.mats, st.rows, st.row + ns, st.done)),
                Err(e) => Err(e),
            }
        }
    } else {
        Ok(matrix_state(b, st.depth, st.mats, st.rows, st.row, st.done))
    }
}

/// The reader of the matrices after `lines`; it reads no further once the
/// declaration has ended or a line is in error.
pub open spec fn matrix_scan(lines: Seq<Seq<char>>) -> Result<MatrixScan, ReadError>
    decreases lines.len(),
{
    if lines.len() == 0 {
        Ok(matrix_scan_start())
    } else {
        match matrix_scan(lines.drop_last()) {
            Err(e) => Err(e),
            Ok(st) => if st.done {
                Ok(st)
            } else {
                matrix_step(st, lines.last())
            },
        }
    }
}

/// A row of a matrix written over several data lines holds the numbers of
/// all of them, in order: three brackets deep, lines that open no
/// declaration and close nothing append their numbers to the row.
pub proof fn lemma_matrix_row_joins_lines(
    pre: Seq<Seq<char>>,
    st: MatrixScan,
    data: Seq<Seq<char>>,
    nums: Seq<Seq<int>>,
)
    requires
        matrix_scan(pre) == Ok::<MatrixScan, ReadError>(st),
        st.reading,
        st.depth == 3,
        !st.done,
        data.len() == nums.len(),
        forall|i: int|
            0 <= i < data.len() ==> !marked(#[trigger] data[i], Marker::ConstField) && !marked(
                data[i],
                Marker::Close,
            ) && line_numbers(data[i]) == Ok::<Seq<int>, ReadError>(nums[i]),
    ensures
        matrix_scan(pre + data) == Ok::<MatrixScan, ReadError>(
            matrix_state(true, 3, st.mats, st.rows, st.row + joined_numbers(nums), false),
        ),
    decreases data.len(),
{
    if data.len() == 0 {
        assert(pre + data =~= pre);
        assert(st.row + joined_numbers(nums) =~= st.row);
    } else {
        let d = data.drop_last();
        let n = nums.drop_last();
        assert forall|i: int| 0 <= i < d.len() implies !marked(#[trigger] d[i], Marker::ConstField)
            && !marked(d[i], Marker::Close) && line_numbers(d[i]) == Ok::<Seq<int>, ReadError>(
            n[i],
        ) by {
            assert(d[i] == data[i]);
        }
        lemma_matrix_row_joins_lines(pre, st, d, n);
        assert((pre + data).drop_last() =~= pre + d);
        let l = data[data.len() - 1];
        assert((pre + data).last() == l);
        assert(line_numbers(l) == Ok::<Seq<int>, ReadError>(nums.last()));
        assert(st.row + joined_numbers(n) + nums.last() =~= st.row + joined_numbers(nums));
    }
}

/// Values of a sequence of matrices of integers.
pub open spec fn mats_val(v: Seq<Vec<Vec<BigInt>>>) -> Seq<Seq<Seq<int>>> {
    Seq::new(v.len(), |i: int| rows_val(v[i]@))
}

/// Once the reader stops, the rest of the lines change nothing.
proof fn lemma_matrix_scan_stops(lines: Seq<Seq<char>>, k: int)
    requires
        0 <= k <= lines.len(),
        matrix_scan(lines.take(k)) is Err || (matrix_scan(lines.take(k)) matches Ok(st) && st.done),
    ensures
        matrix_scan(lines) == matrix_scan(lines.take(k)),
    decreases lines.len() - k,
{
    if k == lines.len() {
        assert(lines.take(k) =~= lines);
    } else {
        assert(lines.take(k + 1).drop_last() =~= lines.take(k));
        lemma_matrix_scan_stops(lines, k + 1);
    }
}

/// Before a line that names the matrices, the reader stays where it began.
proof fn lemma_matrix_scan_unnamed(pre: Seq<Seq<char>>)
    requires
        forall|i: int| 0 <= i < pre.len() ==> !marked(#[trigger] pre[i], Marker::MatrixName),
    ensures
        matrix_scan(pre) == Ok::<MatrixScan, ReadError>(matrix_scan_start()),
    decreases pre.len(),
{
    if pre.len() > 0 {
        let d = pre.drop_last();
        assert forall|i: int| 0 <= i < d.len() implies !marked(#[trigger] d[i], Marker::MatrixName) by {
            assert(d[i] == pre[i]);
        }
        lemma_matrix_scan_unnamed(d);
        assert(!marked(pre[pre.len() - 1], Marker::MatrixName));
    }
}

/// Nothing before the first line that names `POSEIDON_M` is read: where no
/// line of `pre` names it, the matrices read from `pre` followed by `rest`
/// are those read from `rest` alone, and so is any error.
pub proof fn lemma_matrices_skip_unnamed_lines(pre: Seq<Seq<char>>, rest: Seq<Seq<char>>)
    requires
        forall|i: int| 0 <= i < pre.len() ==> !marked(#[trigger] pre[i], Marker::MatrixName),
    ensures
        matrix_scan(pre + rest) == matrix_scan(rest),
    decreases rest.len(),
{
    if rest.len() == 0 {
        assert(pre + rest =~= pre);
        lemma_matrix_scan_unnamed(pre);
    } else {
        lemma_matrices_skip_unnamed_lines(pre, rest.drop_last());
        assert((pre + rest).drop_last() =~= pre + rest.drop_last());
        assert((pre + rest).last() == rest.last());
    }
}

/// Once the declaration of the matrices has ended, or a line is in error,
/// the lines after it change nothing.
pub proof fn lemma_matrices_ignore_rest(lines: Seq<Seq<char>>, more: Seq<Seq<char>>)
    requires
        matrix_scan(lines) is Err || (matrix_scan(lines) matches Ok(st) && st.done),
    ensures
        matrix_scan(lines + more) == matrix_scan(lines),
{
    assert((lines + more).take(lines.len() as int) =~= lines);
    lemma_matrix_scan_stops(lines + more, lines.len() as int);
}

/// Appends `k` rows of `n` copies of `v` to `rows`.
fn push_row_copies(rows: &mut Vec<Vec<BigInt>>, v: i32, n: usize, k: usize)
    ensures
        rows_val(final(rows)@) == rows_val(old(rows)@) + copies(copies(v as int, n as nat), k as nat),
{
    let ghost start = rows_val(rows@);
    let mut i: usize = 0;
    while i < k
        invariant
            i <= k,
            rows_val(rows@) == start + copies(copies(v as int, n as nat), i as nat),
        decreases k - i,
    {
        let mut one: Vec<BigInt> = Vec::new();
        push_copies(&mut one, v, n);
        let ghost before = rows_val(rows@);
        rows.push(one);
        i = i + 1;
        proof {
            assert(ints_val(one@) =~= copies(v as int, n as nat));
            assert(rows_val(rows@) =~= before.push(copies(v as int, n as nat)));
            assert(start + copies(copies(v as int, n as nat), i as nat) =~= (start + copies(
                copies(v as int, n as nat),
                (i - 1) as nat,
            )).push(copies(v as int, n as nat)));
        }
    }
}

/// Reads one line into the reader of the matrices; `Ok(true)` when the
/// declaration has ended.
fn matrix_advance(
    l: &Vec<char>,
    reading: &mut bool,
    depth: &mut usize,
    mats: &mut Vec<Vec<Vec<BigInt>>>,
    rows: &mut Vec<Vec<BigInt>>,
    row: &mut Vec<BigInt>,
) -> (r: Result<bool, ReadError>)
    requires
        *old(depth) <= 3,
    ensures
        match matrix_step(
            matrix_state(
                *old(reading),
                *old(depth) as int,
                mats_val(old(mats)@),
                rows_val(old(rows)@),
                ints_val(old(row)@),
                false,
            ),
            l@,
        ) {
            Ok(st) => r == Ok::<bool, ReadError>(st.done) && st.reading == *final(reading) && st.depth
                == *final(depth) && *final(depth) <= 3 && st.mats == mats_val(final(mats)@) && st.rows
                == rows_val(final(rows)@) && st.row == ints_val(final(row)@),
            Err(e) => r == Err::<bool, ReadError>(e),
        },
{
    if line_has(l, Marker::MatrixName) {
        *reading = true;
    }
    if !*reading {
        return Ok(false);
    }
    if line_has(l, Marker::ConstField) {
        if *depth == 3 {
            return Ok(true);
        }
        *depth = *depth + 1;
        return Ok(false);
    }
    if *depth != 3 && line_has(l, Marker::Open) && !line_has(l, Marker::Repeat) {
        if *depth == 2 && line_has(l, Marker::ZeroRow) {
            let parts = read_semi_parts(l);
            if parts.len() == 2 {
                match read_repeat(&parts) {
                    Some((v, n)) => {
                        let mut one: Vec<BigInt> = Vec::new();
                        push_copies(&mut one, v, n);
                        let ghost before = rows_val(rows@);
                        rows.push(one);
                        proof {
                            assert(ints_val(one@) =~= copies(v as int, n as nat));
                            assert(rows_val(rows@) =~= before.push(copies(v as int, n as nat)));
                        }
                    },
                    None => {},
                }
                return Ok(false);
            }
        }
        *depth = *depth + 1;
        return Ok(false);
    }
    if *depth == 2 && line_has(l, Marker::Repeat) {
        let parts = read_nested_parts(l);
        match read_nested_repeat(&parts) {
            Some((v, n, k)) => {
                push_row_copies(rows, v, n, k);
            },
            None => {},
        }
        return Ok(false);
    }
    if *depth == 2 && line_has(l, Marker::Close) {
        if rows.len() != 0 {
            let ghost before = mats_val(mats@);
            let mut done_rows: Vec<Vec<BigInt>> = Vec::new();
            std::mem::swap(rows, &mut done_rows);
            mats.push(done_rows);
            proof {
                assert(mats_val(mats@) =~= before.push(rows_val(done_rows@)));
                assert(rows_val(rows@) =~= Seq::<Seq<int>>::empty());
            }
        }
        return Ok(false);
    }
    if *depth == 3 {
        if line_has(l, Marker::Close) && row.len() != 0 {
            let ghost before = rows_val(rows@);
            let mut done_row: Vec<BigInt> = Vec::new();
            std::mem::swap(row, &mut done_row);
            rows.push(done_row);
            *depth = 2;
            proof {
                assert(rows_val(rows@) =~= before.push(ints_val(done_row@)));
                assert(ints_val(row@) =~= Seq::<int>::empty());
            }
        } else {
            match read_line_numbers(l) {
                Ok(ns) => {
                    let ghost before = row@;
                    let ghost added = ns@;
                    let mut ns = ns;
                    row.append(&mut ns);
                    proof {
                        assert(ints_val(row@) =~= ints_val(before) + ints_val(added));
                    }
                },
                Err(e) => {
                    return Err(e);
                },
            }
        }
    }
    Ok(false)
}

/// The MDS matrices declared in the lines of a constants file: one matrix
/// per state width, read from the declaration after the first line that
/// names `POSEIDON_M`. Ends in an error at the first entry that is not a
/// decimal integer.
pub fn read_triple_array(lines: &Vec<Vec<char>>) -> (r: Result<Vec<Vec<Vec<BigInt>>>, ReadError>)
    ensures
        match matrix_scan(chars_view(lines@)) {
            Ok(st) => r matches Ok(v) && mats_val(v@) == st.mats,
            Err(e) => r == Err::<Vec<Vec<Vec<BigInt>>>, ReadError>(e),
        },
{
    let ghost ls = chars_view(lines@);
    let mut reading = false;
    let mut depth: usize = 0;
    let mut mats: Vec<Vec<Vec<BigInt>>> = Vec::new();
    let mut rows: Vec<Vec<BigInt>> = Vec::new();
    let mut row: Vec<BigInt> = Vec::new();
    let mut i: usize = 0;
    proof {
        assert(ls.take(0) =~= Seq::<Seq<char>>::empty());
        assert(mats_val(mats@) =~= Seq::<Seq<Seq<int>>>::empty());
        assert(rows_val(rows@) =~= Seq::<Seq<int>>::empty());
        assert(ints_val(row@) =~= Seq::<int>::empty());
    }
    while i < lines.len()
        invariant
            i <= lines@.len(),
            ls == chars_view(lines@),
            depth <= 3,
            matrix_scan(ls.take(i as int)) == Ok::<MatrixScan, ReadError>(
                matrix_state(
                    reading,
                    depth as int,
                    mats_val(mats@),
                    rows_val(rows@),
                    ints_val(row@),
                    false,
                ),
            ),
        decreases lines@.len() - i,
    {
        proof {
            assert(ls.take(i + 1).drop_last() =~= ls.take(i as int));
            assert(ls.take(i + 1).last() == lines@[i as int]@);
        }
        match matrix_advance(&lines[i], &mut reading, &mut depth, &mut mats, &mut rows, &mut row) {
            Err(e) => {
                proof {
                    lemma_matrix_scan_stops(ls, i + 1);
                }
                return Err(e);
            },
            Ok(true) => {
                proof {
                    lemma_matrix_scan_stops(ls, i + 1);
                }
                return Ok(mats);
            },
            Ok(false) => {},
        }
        i = i + 1;
    }
    proof {
        assert(ls.take(lines@.len() as int) =~= ls);
    }
    Ok(mats)
}

} // verus!
