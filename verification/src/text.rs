use vstd::prelude::*;

verus! {

/// The Unicode `White_Space` characters.
pub open spec fn is_space(c: char) -> bool {
    let u = c as u32;
    (0x9 <= u <= 0xd) || u == 0x20 || u == 0x85 || u == 0xa0 || u == 0x1680 || (0x2000 <= u
        <= 0x200a) || u == 0x2028 || u == 0x2029 || u == 0x202f || u == 0x205f || u == 0x3000
}

/// Whether `c` is a Unicode `White_Space` character.
pub fn is_whitespace(c: char) -> (r: bool)
    ensures
        r == is_space(c),
{
    let u = c as u32;
    (0x9 <= u && u <= 0xd) || u == 0x20 || u == 0x85 || u == 0xa0 || u == 0x1680 || (0x2000 <= u
        && u <= 0x200a) || u == 0x2028 || u == 0x2029 || u == 0x202f || u == 0x205f || u == 0x3000
}

/// Whether `c` lies in one of Unicode's number categories (`Nd`, `Nl`, `No`).
pub uninterp spec fn unicode_numeric(c: char) -> bool;

/// `char::is_numeric`: whether `c` has one of the general categories for
/// numbers. The ASCII digits have such a category and no other ASCII character
/// has one; of the other characters nothing more is claimed.
#[verifier::external_body]
fn char_is_numeric(c: char) -> (r: bool)
    ensures
        r == unicode_numeric(c),
        '0' <= c <= '9' ==> r,
        (c as u32) < 128 && !('0' <= c <= '9') ==> !r,
{
    c.is_numeric()
}

/// Whether `c` is numeric as `char::is_numeric` decides: an ASCII character
/// is numeric exactly when it is a decimal digit; beyond ASCII, Unicode's
/// number categories decide.
pub open spec fn numeric(c: char) -> bool {
    if (c as u32) < 128 {
        '0' <= c <= '9'
    } else {
        unicode_numeric(c)
    }
}

/// Sets of characters that are trimmed from the ends of a line.
#[derive(PartialEq, Eq, Debug, Clone, Copy)]
pub enum CharClass {
    /// Unicode white space
    Space,
    /// `.`, `[` and `]`
    Brackets,
    /// `.`
    Dots,
    /// Every character that is neither numeric nor `-`
    NonNumber,
}

/// Whether `c` belongs to class `k`.
pub open spec fn in_class(c: char, k: CharClass) -> bool {
    match k {
        CharClass::Space => is_space(c),
        CharClass::Brackets => c == '.' || c == '[' || c == ']',
        CharClass::Dots => c == '.',
        CharClass::NonNumber => !numeric(c) && c != '-',
    }
}

/// Whether `c` belongs to class `k`.
pub fn class_has(c: char, k: CharClass) -> (r: bool)
    ensures
        r == in_class(c, k),
{
    match k {
        CharClass::Space => is_whitespace(c),
        CharClass::Brackets => c == '.' || c == '[' || c == ']',
        CharClass::Dots => c == '.',
        CharClass::NonNumber => !char_is_numeric(c) && c != '-',
    }
}

/// Number of leading characters of `s` in class `k`.
pub open spec fn lead_count(s: Seq<char>, k: CharClass) -> nat
    decreases s.len(),
{
    if s.len() > 0 && in_class(s[0], k) {
        1 + lead_count(s.skip(1), k)
    } else {
        0
    }
}

/// Number of trailing characters of `s` in class `k`.
pub open spec fn trail_count(s: Seq<char>, k: CharClass) -> nat
    decreases s.len(),
{
    if s.len() > 0 && in_class(s.last(), k) {
        1 + trail_count(s.drop_last(), k)
    } else {
        0
    }
}

/// `s` with every leading and trailing character of class `k` removed, as
/// `str::trim_matches` gives it.
pub open spec fn trim_class_spec(s: Seq<char>, k: CharClass) -> Seq<char> {
    let t = s.skip(lead_count(s, k) as int);
    t.take(t.len() - trail_count(t, k))
}

/// `s` without leading and trailing whitespace, as `str::trim` gives it.
pub open spec fn trim_spec(s: Seq<char>) -> Seq<char> {
    trim_class_spec(s, CharClass::Space)
}

proof fn lemma_lead_count(s: Seq<char>, k: CharClass, i: int)
    requires
        0 <= i <= s.len(),
        forall|j: int| 0 <= j < i ==> in_class(#[trigger] s[j], k),
    ensures
        lead_count(s, k) == i + lead_count(s.skip(i), k),
    decreases i,
{
    if i > 0 {
        assert(s.skip(1).skip(i - 1) =~= s.skip(i));
        assert forall|j: int| 0 <= j < i - 1 implies in_class(#[trigger] s.skip(1)[j], k) by {
            assert(s.skip(1)[j] == s[j + 1]);
        }
        lemma_lead_count(s.skip(1), k, i - 1);
    } else {
        assert(s.skip(0) =~= s);
    }
}

proof fn lemma_trail_count(s: Seq<char>, k: CharClass, j0: int)
    requires
        0 <= j0 <= s.len(),
        forall|j: int| j0 <= j < s.len() ==> in_class(#[trigger] s[j], k),
    ensures
        trail_count(s, k) == (s.len() - j0) + trail_count(s.take(j0), k),
    decreases s.len() - j0,
{
    if j0 < s.len() {
        assert(s.drop_last().take(j0) =~= s.take(j0));
        assert forall|j: int| j0 <= j < s.drop_last().len() implies in_class(
            #[trigger] s.drop_last()[j],
            k,
        ) by {
            assert(s.drop_last()[j] == s[j]);
        }
        lemma_trail_count(s.drop_last(), k, j0);
    } else {
        assert(s.take(j0) =~= s);
    }
}

/// `s` with every leading and trailing character of class `k` removed.
pub fn trim_class(s: &[char], k: CharClass) -> (r: Vec<char>)
    ensures
        r@ == trim_class_spec(s@, k),
{
    let n = s.len();
    let mut i: usize = 0;
    while i < n && class_has(s[i], k)
        invariant
            i <= n,
            n == s@.len(),
            forall|j: int| 0 <= j < i ==> in_class(#[trigger] s@[j], k),
        decreases n - i,
    {
        i = i + 1;
    }
    proof {
        lemma_lead_count(s@, k, i as int);
        if i < n {
            assert(!in_class(s@.skip(i as int)[0], k));
        }
        assert(lead_count(s@.skip(i as int), k) == 0);
    }
    let ghost t = s@.skip(i as int);
    let mut e: usize = n;
    while e > i && class_has(s[e - 1], k)
        invariant
            i <= e <= n,
            n == s@.len(),
            t == s@.skip(i as int),
            forall|j: int| e <= j < n ==> in_class(#[trigger] s@[j], k),
        decreases e,
    {
        e = e - 1;
    }
    proof {
        let ee = e - i;
        assert forall|j: int| ee <= j < t.len() implies in_class(#[trigger] t[j], k) by {
            assert(t[j] == s@[j + i]);
        }
        lemma_trail_count(t, k, ee);
        if ee > 0 {
            assert(t.take(ee).last() == s@[e - 1]);
        }
        assert(trail_count(t.take(ee), k) == 0);
    }
    let mut out: Vec<char> = Vec::new();
    let mut j: usize = i;
    while j < e
        invariant
            i <= j <= e <= n,
            n == s@.len(),
            out@ == s@.subrange(i as int, j as int),
        decreases e - j,
    {
        out.push(s[j]);
        j = j + 1;
        proof {
            assert(out@ =~= s@.subrange(i as int, j as int));
        }
    }
    proof {
        assert(out@ =~= trim_class_spec(s@, k));
    }
    out
}

/// `s` without leading and trailing whitespace.
pub fn trim(s: &[char]) -> (r: Vec<char>)
    ensures
        r@ == trim_spec(s@),
{
    trim_class(s, CharClass::Space)
}

/// `pat` occurs in `s` at position `i`.
pub open spec fn occurs_at(s: Seq<char>, pat: Seq<char>, i: int) -> bool {
    0 <= i && i + pat.len() <= s.len() && s.subrange(i, i + pat.len()) == pat
}

/// `pat` occurs in `s`, as `str::contains` tests it.
pub open spec fn occurs(s: Seq<char>, pat: Seq<char>) -> bool {
    exists|i: int| #[trigger] occurs_at(s, pat, i)
}

fn matches_at(s: &[char], pat: &[char], i: usize) -> (r: bool)
    requires
        i + pat@.len() <= s@.len(),
    ensures
        r == occurs_at(s@, pat@, i as int),
{
    let m = pat.len();
    let n = s.len();
    let mut k: usize = 0;
    while k < m
        invariant
            k <= m,
            m == pat@.len(),
            n == s@.len(),
            i + m <= s@.len(),
            forall|t: int| 0 <= t < k ==> s@[i + t] == pat@[t],
        decreases m - k,
    {
        if s[i + k] != pat[k] {
            proof {
                assert(s@.subrange(i as int, i + m)[k as int] != pat@[k as int]);
            }
            return false;
        }
        k = k + 1;
    }
    proof {
        assert(s@.subrange(i as int, i + m) =~= pat@);
    }
    true
}

/// Whether `pat` occurs in `s`.
pub fn contains_chars(s: &[char], pat: &[char]) -> (r: bool)
    ensures
        r == occurs(s@, pat@),
{
    let n = s.len();
    let m = pat.len();
    if m > n {
        proof {
            assert forall|i: int| !#[trigger] occurs_at(s@, pat@, i) by {}
        }
        return false;
    }
    if m == 0 {
        proof {
            assert(s@.subrange(0, 0) =~= pat@);
            assert(occurs_at(s@, pat@, 0));
        }
        return true;
    }
    let mut i: usize = 0;
    while i <= n - m
        invariant
            i <= n - m + 1,
            1 <= m <= n,
            n == s@.len(),
            m == pat@.len(),
            forall|j: int| 0 <= j < i ==> !#[trigger] occurs_at(s@, pat@, j),
        decreases n - m + 1 - i,
    {
        if matches_at(s, pat, i) {
            return true;
        }
        i = i + 1;
    }
    proof {
        assert forall|j: int| !#[trigger] occurs_at(s@, pat@, j) by {
            if 0 <= j && j < i {
            }
        }
    }
    false
}

/// Pieces of `s` between occurrences of `sep`, as `str::split` yields them
/// (there is always at least one piece).
pub open spec fn split_spec(s: Seq<char>, sep: char) -> Seq<Seq<char>>
    decreases s.len(),
{
    if s.len() == 0 {
        seq![Seq::<char>::empty()]
    } else {
        let prev = split_spec(s.drop_last(), sep);
        if s.last() == sep {
            prev.push(Seq::<char>::empty())
        } else {
            prev.update(prev.len() - 1, prev.last().push(s.last()))
        }
    }
}

pub proof fn lemma_split_len(s: Seq<char>, sep: char)
    ensures
        split_spec(s, sep).len() >= 1,
    decreases s.len(),
{
    if s.len() > 0 {
        lemma_split_len(s.drop_last(), sep);
    }
}

/// Views of a vector of character vectors.
pub open spec fn chars_view(v: Seq<Vec<char>>) -> Seq<Seq<char>> {
    Seq::new(v.len(), |i: int| v[i]@)
}

/// Splits `s` at every `sep`.
pub fn split(s: &[char], sep: char) -> (r: Vec<Vec<char>>)
    ensures
        chars_view(r@) == split_spec(s@, sep),
        r@.len() >= 1,
{
    let mut pieces: Vec<Vec<char>> = Vec::new();
    let mut cur: Vec<char> = Vec::new();
    let n = s.len();
    let mut i: usize = 0;
    proof {
        assert(s@.take(0) =~= Seq::<char>::empty());
        assert(chars_view(pieces@).push(cur@) =~= split_spec(s@.take(0), sep));
    }
    while i < n
        invariant
            i <= n,
            n == s@.len(),
            chars_view(pieces@).push(cur@) == split_spec(s@.take(i as int), sep),
        decreases n - i,
    {
        let c = s[i];
        proof {
            assert(s@.take(i + 1).drop_last() =~= s@.take(i as int));
            assert(s@.take(i + 1).last() == c);
            lemma_split_len(s@.take(i as int), sep);
        }
        if c == sep {
            let done = cur;
            let ghost prev_view = chars_view(pieces@);
            pieces.push(done);
            cur = Vec::new();
            proof {
                assert(chars_view(pieces@) =~= prev_view.push(done@));
                assert(chars_view(pieces@).push(cur@) =~= split_spec(s@.take(i + 1), sep));
            }
        } else {
            let ghost old_cur = cur@;
            cur.push(c);
            proof {
                assert(chars_view(pieces@).push(cur@) =~= split_spec(s@.take(i + 1), sep));
            }
        }
        i = i + 1;
    }
    let ghost pv = chars_view(pieces@);
    pieces.push(cur);
    proof {
        assert(chars_view(pieces@) =~= pv.push(pieces@.last()@));
        assert(s@.take(n as int) =~= s@);
    }
    pieces
}

/// Pieces of `s` between occurrences of any character of `seps` (there is
/// always at least one piece).
pub open spec fn split_any_spec(s: Seq<char>, seps: Seq<char>) -> Seq<Seq<char>>
    decreases s.len(),
{
    if s.len() == 0 {
        seq![Seq::<char>::empty()]
    } else {
        let prev = split_any_spec(s.drop_last(), seps);
        if seps.contains(s.last()) {
            prev.push(Seq::<char>::empty())
        } else {
            prev.update(prev.len() - 1, prev.last().push(s.last()))
        }
    }
}

proof fn lemma_split_any_len(s: Seq<char>, seps: Seq<char>)
    ensures
        split_any_spec(s, seps).len() >= 1,
    decreases s.len(),
{
    if s.len() > 0 {
        lemma_split_any_len(s.drop_last(), seps);
    }
}

/// Whether `c` is one of `seps`.
fn one_of(c: char, seps: &[char]) -> (r: bool)
    ensures
        r == seps@.contains(c),
{
    let mut i: usize = 0;
    while i < seps.len()
        invariant
            i <= seps@.len(),
            forall|j: int| 0 <= j < i ==> seps@[j] != c,
        decreases seps@.len() - i,
    {
        if seps[i] == c {
            proof {
                assert(seps@[i as int] == c);
            }
            return true;
        }
        i = i + 1;
    }
    false
}

/// Splits `s` at every character of `seps`.
pub fn split_any(s: &[char], seps: &[char]) -> (r: Vec<Vec<char>>)
    ensures
        chars_view(r@) == split_any_spec(s@, seps@),
        r@.len() >= 1,
{
    let mut pieces: Vec<Vec<char>> = Vec::new();
    let mut cur: Vec<char> = Vec::new();
    let n = s.len();
    let mut i: usize = 0;
    proof {
        assert(s@.take(0) =~= Seq::<char>::empty());
        assert(chars_view(pieces@).push(cur@) =~= split_any_spec(s@.take(0), seps@));
    }
    while i < n
        invariant
            i <= n,
            n == s@.len(),
            chars_view(pieces@).push(cur@) == split_any_spec(s@.take(i as int), seps@),
        decreases n - i,
    {
        let c = s[i];
        proof {
            assert(s@.take(i + 1).drop_last() =~= s@.take(i as int));
            assert(s@.take(i + 1).last() == c);
            lemma_split_any_len(s@.take(i as int), seps@);
        }
        if one_of(c, seps) {
            let done = cur;
            let ghost prev_view = chars_view(pieces@);
            pieces.push(done);
            cur = Vec::new();
            proof {
                assert(chars_view(pieces@) =~= prev_view.push(done@));
                assert(chars_view(pieces@).push(cur@) =~= split_any_spec(s@.take(i + 1), seps@));
            }
        } else {
            cur.push(c);
            proof {
                assert(chars_view(pieces@).push(cur@) =~= split_any_spec(s@.take(i + 1), seps@));
            }
        }
        i = i + 1;
    }
    let ghost pv = chars_view(pieces@);
    pieces.push(cur);
    proof {
        assert(chars_view(pieces@) =~= pv.push(pieces@.last()@));
        assert(s@.take(n as int) =~= s@);
    }
    pieces
}

/// The characters of a string slice.
pub fn str_chars(s: &str) -> (r: Vec<char>)
    ensures
        r@ == s@,
{
    let n = s.unicode_len();
    let mut out: Vec<char> = Vec::new();
    let mut i: usize = 0;
    while i < n
        invariant
            i <= n,
            n == s@.len(),
            out@ == s@.take(i as int),
        decreases n - i,
    {
        out.push(s.get_char(i));
        i = i + 1;
        proof {
            assert(out@ =~= s@.take(i as int));
        }
    }
    proof {
        assert(s@.take(n as int) =~= s@);
    }
    out
}

/// Whether two character sequences are equal.
pub fn chars_eq(a: &[char], b: &[char]) -> (r: bool)
    ensures
        r == (a@ == b@),
{
    if a.len() != b.len() {
        return false;
    }
    let mut i: usize = 0;
    while i < a.len()
        invariant
            i <= a@.len(),
            a@.len() == b@.len(),
            forall|j: int| 0 <= j < i ==> a@[j] == b@[j],
        decreases a@.len() - i,
    {
        if a[i] != b[i] {
            return false;
        }
        i = i + 1;
    }
    proof {
        assert(a@ =~= b@);
    }
    true
}

/// The decimal digit character for `d < 10`.
pub open spec fn digit_char(d: nat) -> char {
    if d == 0 {
        '0'
    } else if d == 1 {
        '1'
    } else if d == 2 {
        '2'
    } else if d == 3 {
        '3'
    } else if d == 4 {
        '4'
    } else if d == 5 {
        '5'
    } else if d == 6 {
        '6'
    } else if d == 7 {
        '7'
    } else if d == 8 {
        '8'
    } else {
        '9'
    }
}

/// Decimal representation of `n`, without leading zeros.
pub open spec fn decimal(n: nat) -> Seq<char>
    decreases n,
{
    if n < 10 {
        seq![digit_char(n)]
    } else {
        decimal(n / 10).push(digit_char(n % 10))
    }
}

/// The decimal digit character for `d < 10`.
pub fn digit(d: usize) -> (c: char)
    requires
        d < 10,
    ensures
        c == digit_char(d as nat),
{
    if d == 0 {
        '0'
    } else if d == 1 {
        '1'
    } else if d == 2 {
        '2'
    } else if d == 3 {
        '3'
    } else if d == 4 {
        '4'
    } else if d == 5 {
        '5'
    } else if d == 6 {
        '6'
    } else if d == 7 {
        '7'
    } else if d == 8 {
        '8'
    } else {
        '9'
    }
}

/// Decimal representation of `n`.
pub fn usize_to_decimal(n: usize) -> (r: Vec<char>)
    ensures
        r@ == decimal(n as nat),
    decreases n,
{
    if n < 10 {
        let mut v: Vec<char> = Vec::new();
        v.push(digit(n));
        proof {
            assert(v@ =~= seq![digit_char(n as nat)]);
        }
        v
    } else {
        let mut v = usize_to_decimal(n / 10);
        v.push(digit(n % 10));
        v
    }
}

/// The value of an ASCII digit.
pub open spec fn digit_value(c: char) -> int {
    (c as u32) - ('0' as u32)
}

/// Whether `c` is an ASCII digit.
pub open spec fn is_digit(c: char) -> bool {
    '0' <= c <= '9'
}

/// Value of a string of ASCII digits.
pub open spec fn digits_value(s: Seq<char>) -> int
    decreases s.len(),
{
    if s.len() == 0 {
        0
    } else {
        10 * digits_value(s.drop_last()) + digit_value(s.last())
    }
}

/// Whether `s` is a non-empty run of ASCII digits.
pub open spec fn all_digits(s: Seq<char>) -> bool {
    s.len() > 0 && forall|i: int| 0 <= i < s.len() ==> is_digit(#[trigger] s[i])
}

/// `s` without a leading `+`.
pub open spec fn unsigned_digits(s: Seq<char>) -> Seq<char> {
    if s.len() > 0 && s[0] == '+' {
        s.skip(1)
    } else {
        s
    }
}

/// `s` without a leading `+` or `-`.
pub open spec fn signed_digits(s: Seq<char>) -> Seq<char> {
    if s.len() > 0 && (s[0] == '+' || s[0] == '-') {
        s.skip(1)
    } else {
        s
    }
}

/// What `u8::from_str` accepts: an optional `+` followed by decimal digits
/// whose value is at most 255.
pub open spec fn u8_literal(s: Seq<char>) -> Option<u8> {
    let d = unsigned_digits(s);
    if all_digits(d) && digits_value(d) <= 255 {
        Some(digits_value(d) as u8)
    } else {
        None
    }
}

/// What `usize::from_str` accepts: an optional `+` followed by decimal digits
/// whose value fits in a `usize`.
pub open spec fn usize_literal(s: Seq<char>) -> Option<usize> {
    let d = unsigned_digits(s);
    if all_digits(d) && digits_value(d) <= usize::MAX {
        Some(digits_value(d) as usize)
    } else {
        None
    }
}

/// What `i32::from_str` accepts: an optional `+` or `-` followed by decimal
/// digits whose signed value fits in an `i32`.
pub open spec fn i32_literal(s: Seq<char>) -> Option<i32> {
    let d = signed_digits(s);
    let v = if s.len() > 0 && s[0] == '-' {
        -digits_value(d)
    } else {
        digits_value(d)
    };
    if all_digits(d) && i32::MIN <= v <= i32::MAX {
        Some(v as i32)
    } else {
        None
    }
}

proof fn lemma_digits_value_nonneg(s: Seq<char>)
    requires
        forall|i: int| 0 <= i < s.len() ==> is_digit(#[trigger] s[i]),
    ensures
        digits_value(s) >= 0,
    decreases s.len(),
{
    if s.len() > 0 {
        assert forall|i: int| 0 <= i < s.drop_last().len() implies is_digit(
            #[trigger] s.drop_last()[i],
        ) by {
            assert(s.drop_last()[i] == s[i]);
        }
        lemma_digits_value_nonneg(s.drop_last());
        assert(is_digit(s[s.len() - 1]));
    }
}

/// The value of the digits `s[start..]` when they are a non-empty run of
/// ASCII digits worth at most `bound`.
fn digits_up_to(s: &[char], start: usize, bound: u128) -> (r: Option<u128>)
    requires
        start <= s@.len(),
        bound <= 0x1_0000_0000_0000_0000,
    ensures
        r == (if all_digits(s@.skip(start as int)) && digits_value(s@.skip(start as int)) <= bound {
            Some(digits_value(s@.skip(start as int)) as u128)
        } else {
            None
        }),
{
    let n = s.len();
    let ghost d = s@.skip(start as int);
    if start >= n {
        return None;
    }
    let mut value: u128 = 0;
    let mut i: usize = start;
    proof {
        assert(d.take(0) =~= Seq::<char>::empty());
    }
    while i < n
        invariant
            start <= i <= n,
            start < n,
            n == s@.len(),
            d == s@.skip(start as int),
            bound <= 0x1_0000_0000_0000_0000,
            forall|j: int| 0 <= j < i - start ==> is_digit(#[trigger] d[j]),
            value == digits_value(d.take(i - start)),
            value <= bound,
        decreases n - i,
    {
        let c = s[i];
        if !('0' <= c && c <= '9') {
            proof {
                assert(d[i - start] == c);
                assert(!is_digit(d[i - start]));
            }
            return None;
        }
        let dv: u128 = ((c as u32) - ('0' as u32)) as u128;
        proof {
            assert(d.take(i - start + 1).drop_last() =~= d.take(i - start));
            assert(d.take(i - start + 1).last() == c);
            assert(d[i - start] == c);
        }
        if value * 10 + dv > bound {
            proof {
                assert(digits_value(d.take(i - start + 1)) > bound);
                if all_digits(d) {
                    lemma_digits_value_prefix(d, i - start + 1);
                }
            }
            return None;
        }
        value = value * 10 + dv;
        i = i + 1;
    }
    proof {
        assert(d.take(n - start) =~= d);
    }
    Some(value)
}

/// Parses a decimal byte value as `u8::from_str` does.
pub fn parse_u8(s: &[char]) -> (r: Option<u8>)
    ensures
        r == u8_literal(s@),
{
    let start: usize = if s.len() > 0 && s[0] == '+' { 1 } else { 0 };
    proof {
        assert(unsigned_digits(s@) =~= s@.skip(start as int));
        if all_digits(unsigned_digits(s@)) {
            lemma_digits_value_nonneg(unsigned_digits(s@));
        }
    }
    match digits_up_to(s, start, 255) {
        Some(v) => Some(v as u8),
        None => None,
    }
}

/// Parses a decimal count as `usize::from_str` does.
pub fn parse_usize(s: &[char]) -> (r: Option<usize>)
    ensures
        r == usize_literal(s@),
{
    let start: usize = if s.len() > 0 && s[0] == '+' { 1 } else { 0 };
    proof {
        assert(unsigned_digits(s@) =~= s@.skip(start as int));
        if all_digits(unsigned_digits(s@)) {
            lemma_digits_value_nonneg(unsigned_digits(s@));
        }
    }
    match digits_up_to(s, start, usize::MAX as u128) {
        Some(v) => Some(v as usize),
        None => None,
    }
}

/// Parses a decimal number as `i32::from_str` does.
pub fn parse_i32(s: &[char]) -> (r: Option<i32>)
    ensures
        r == i32_literal(s@),
{
    let neg = s.len() > 0 && s[0] == '-';
    let start: usize = if s.len() > 0 && (s[0] == '+' || s[0] == '-') { 1 } else { 0 };
    proof {
        assert(signed_digits(s@) =~= s@.skip(start as int));
        if all_digits(signed_digits(s@)) {
            lemma_digits_value_nonneg(signed_digits(s@));
        }
    }
    let bound: u128 = if neg { 0x8000_0000 } else { 0x7fff_ffff };
    match digits_up_to(s, start, bound) {
        Some(v) => {
            if neg {
                Some((0i64 - (v as i64)) as i32)
            } else {
                Some(v as i32)
            }
        },
        None => None,
    }
}

/// The value of a run of digits is at least the value of each of its prefixes.
proof fn lemma_digits_value_prefix(s: Seq<char>, k: int)
    requires
        0 <= k <= s.len(),
        forall|i: int| 0 <= i < s.len() ==> is_digit(#[trigger] s[i]),
    ensures
        digits_value(s) >= digits_value(s.take(k)),
    decreases s.len(),
{
    if k == s.len() {
        assert(s.take(k) =~= s);
    } else {
        let t = s.drop_last();
        assert forall|i: int| 0 <= i < t.len() implies is_digit(#[trigger] t[i]) by {
            assert(t[i] == s[i]);
        }
        lemma_digits_value_prefix(t, k);
        assert(t.take(k) =~= s.take(k));
        lemma_digits_value_nonneg(t);
        assert(is_digit(s[s.len() - 1]));
    }
}

/// The digit character of `n < 10` is an ASCII digit worth `n`.
pub proof fn lemma_digit_char(n: nat)
    requires
        n < 10,
    ensures
        is_digit(digit_char(n)),
        digit_value(digit_char(n)) == n,
{
    if n == 0 {
    } else if n == 1 {
    } else if n == 2 {
    } else if n == 3 {
    } else if n == 4 {
    } else if n == 5 {
    } else if n == 6 {
    } else if n == 7 {
    } else if n == 8 {
    } else {
    }
}

/// The decimal text of `n` is a run of digits worth `n`.
pub proof fn lemma_decimal_digits(n: nat)
    ensures
        all_digits(decimal(n)),
        digits_value(decimal(n)) == n,
    decreases n,
{
    if n < 10 {
        lemma_digit_char(n);
        let d = decimal(n);
        assert(d == seq![digit_char(n)]);
        assert(d.drop_last() =~= Seq::<char>::empty());
        assert(digits_value(d.drop_last()) == 0);
        assert(d.last() == digit_char(n));
    } else {
        lemma_decimal_digits(n / 10);
        lemma_digit_char(n % 10);
        let d = decimal(n);
        let p = decimal(n / 10);
        assert(d == p.push(digit_char(n % 10)));
        assert(d.drop_last() =~= p);
        assert(d.last() == digit_char(n % 10));
        assert(digits_value(d) == 10 * digits_value(p) + digit_value(digit_char(n % 10)));
        assert forall|i: int| 0 <= i < d.len() implies is_digit(#[trigger] d[i]) by {
            if i < p.len() {
                assert(d[i] == p[i]);
            }
        }
    }
}

} // verus!
