use vstd::prelude::*;
use crate::bignat::BigNat;
use crate::text::{chars_eq, usize_to_decimal, decimal};

verus! {

/// What is assigned to one named input of a circuit.
pub enum InputValue {
    /// A field element written in decimal, as it appears in an input file.
    Literal(Vec<char>),
    /// A field element given by its value.
    Number(BigNat),
    /// A Boolean.
    Bool(bool),
}

/// The meaning of an [`InputValue`].
pub enum FieldInput {
    Literal(Seq<char>),
    Number(nat),
    Bool(bool),
}

impl View for InputValue {
    type V = FieldInput;

    open spec fn view(&self) -> FieldInput {
        match self {
            InputValue::Literal(s) => FieldInput::Literal(s@),
            InputValue::Number(n) => FieldInput::Number(n@),
            InputValue::Bool(b) => FieldInput::Bool(*b),
        }
    }
}

/// The map described by a list of assignments, later ones taking precedence.
pub open spec fn entries_map(s: Seq<(Vec<char>, InputValue)>) -> Map<Seq<char>, FieldInput>
    decreases s.len(),
{
    if s.len() == 0 {
        Map::empty()
    } else {
        entries_map(s.drop_last()).insert(s.last().0@, s.last().1@)
    }
}

/// Assignments of values to the named inputs of a circuit.
pub struct InputMap {
    pub entries: Vec<(Vec<char>, InputValue)>,
}

impl View for InputMap {
    type V = Map<Seq<char>, FieldInput>;

    open spec fn view(&self) -> Map<Seq<char>, FieldInput> {
        entries_map(self.entries@)
    }
}

proof fn lemma_entries_map_suffix(s: Seq<(Vec<char>, InputValue)>, i: int, k: Seq<char>)
    requires
        0 <= i <= s.len(),
        forall|j: int| i <= j < s.len() ==> (#[trigger] s[j]).0@ != k,
    ensures
        entries_map(s).contains_key(k) == entries_map(s.take(i)).contains_key(k),
        entries_map(s).contains_key(k) ==> entries_map(s)[k] == entries_map(s.take(i))[k],
    decreases s.len() - i,
{
    if i == s.len() {
        assert(s.take(i) =~= s);
    } else {
        let t = s.drop_last();
        assert(t.take(i) =~= s.take(i));
        assert forall|j: int| i <= j < t.len() implies (#[trigger] t[j]).0@ != k by {
            assert(t[j] == s[j]);
        }
        lemma_entries_map_suffix(t, i, k);
        assert(s.last() == s[s.len() - 1]);
    }
}

impl InputMap {
    /// No assignments.
    pub fn new() -> (r: InputMap)
        ensures
            r@ == Map::<Seq<char>, FieldInput>::empty(),
    {
        InputMap { entries: Vec::new() }
    }

    /// Assigns `value` to `key`, replacing any earlier assignment.
    pub fn insert(&mut self, key: Vec<char>, value: InputValue)
        ensures
            final(self)@ == old(self)@.insert(key@, value@),
    {
        let ghost prev = self.entries@;
        self.entries.push((key, value));
        proof {
            assert(self.entries@.drop_last() =~= prev);
        }
    }

    /// The value assigned to `key`, if any.
    pub fn get(&self, key: &[char]) -> (r: Option<&InputValue>)
        ensures
            r is Some == self@.contains_key(key@),
            r matches Some(v) ==> v@ == self@[key@],
    {
        let mut i: usize = self.entries.len();
        while i > 0
            invariant
                i <= self.entries@.len(),
                forall|j: int| i <= j < self.entries@.len() ==> (#[trigger] self.entries@[j]).0@
                    != key@,
            decreases i,
        {
            if chars_eq(&self.entries[i - 1].0, key) {
                proof {
                    lemma_entries_map_suffix(self.entries@, i as int, key@);
                    let t = self.entries@.take(i as int);
                    assert(t.drop_last() =~= self.entries@.take(i - 1));
                    assert(t.last() == self.entries@[i - 1]);
                }
                return Some(&self.entries[i - 1].1);
            }
            i = i - 1;
        }
        proof {
            lemma_entries_map_suffix(self.entries@, 0, key@);
            assert(self.entries@.take(0) =~= Seq::<(Vec<char>, InputValue)>::empty());
        }
        None
    }
}

/// What [`InputMap::get`] gives back after [`InputMap::insert`]: under the
/// key inserted, the value inserted (whatever was there before); under any
/// other key, what was there before.
pub proof fn lemma_get_after_insert(
    before: Map<Seq<char>, FieldInput>,
    key: Seq<char>,
    value: FieldInput,
    other: Seq<char>,
)
    ensures
        before.insert(key, value).contains_key(key),
        before.insert(key, value)[key] == value,
        other != key ==> before.insert(key, value).contains_key(other) == before.contains_key(other),
        other != key && before.contains_key(other) ==> before.insert(key, value)[other]
            == before[other],
{
}

/// The name of element `index` of the array input `name`: `name.index`.
pub open spec fn indexed_key(name: Seq<char>, index: nat) -> Seq<char> {
    name + seq!['.'] + decimal(index)
}

/// `name.index`.
pub fn indexed_name(name: &[char], index: usize) -> (r: Vec<char>)
    ensures
        r@ == indexed_key(name@, index as nat),
{
    let mut out: Vec<char> = Vec::new();
    let mut i: usize = 0;
    while i < name.len()
        invariant
            i <= name@.len(),
            out@ == name@.take(i as int),
        decreases name@.len() - i,
    {
        out.push(name[i]);
        i = i + 1;
        proof {
            assert(out@ =~= name@.take(i as int));
        }
    }
    out.push('.');
    let digits = usize_to_decimal(index);
    let mut j: usize = 0;
    let ghost base = out@;
    proof {
        assert(name@.take(name@.len() as int) =~= name@);
    }
    while j < digits.len()
        invariant
            j <= digits@.len(),
            base == name@ + seq!['.'],
            out@ == base + digits@.take(j as int),
        decreases digits@.len() - j,
    {
        out.push(digits[j]);
        j = j + 1;
        proof {
            assert(out@ =~= base + digits@.take(j as int));
        }
    }
    proof {
        assert(digits@.take(digits@.len() as int) =~= digits@);
    }
    out
}

} // verus!
