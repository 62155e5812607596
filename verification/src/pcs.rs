use vstd::prelude::*;
use crate::bignat::BigNat;
use crate::input_map::{InputMap, InputValue, FieldInput, indexed_key, indexed_name};
use crate::text::{decimal, lemma_decimal_digits, split, split_spec, str_chars, chars_view, trim, trim_spec, parse_u8, u8_literal};
use crate::packing::{pack_vector, packed, pad_spec};
use crate::poseidon::{PoseidonConstants, poseidon_hash, poseidon_spec, nats_val, nats_to_ints};

verus! {

/// One input read from a line of an input file.
///
/// A vector line has the form `[a, b, c]` and assigns `name.0`, `name.1`,
/// ... to the comma-separated items between the brackets (each item as
/// written, with its surrounding spaces); a scalar line assigns the whole
/// line to `name`.
#[derive(Clone, Copy)]
pub struct Field {
    pub line: usize,
    pub name: &'static str,
    pub vector: bool,
}

/// A line whose first and last characters can be cut off: at least two
/// characters, the first and the last of them ASCII.
pub open spec fn bracketed(l: Seq<char>) -> bool {
    &&& l.len() >= 2
    &&& (l[0] as u32) < 128
    &&& (l.last() as u32) < 128
}

/// The comma-separated items of a vector line.
pub open spec fn line_items(l: Seq<char>) -> Seq<Seq<char>> {
    split_spec(l.subrange(1, l.len() - 1), ',')
}

/// `m` with `name.i` assigned `items[i]` for every `i`, in order.
pub open spec fn insert_items(
    m: Map<Seq<char>, FieldInput>,
    name: Seq<char>,
    items: Seq<Seq<char>>,
) -> Map<Seq<char>, FieldInput>
    decreases items.len(),
{
    if items.len() == 0 {
        m
    } else {
        insert_items(m, name, items.drop_last()).insert(
            indexed_key(name, (items.len() - 1) as nat),
            FieldInput::Literal(items.last()),
        )
    }
}

/// `m` with the input described by `f` assigned from `lines`.
pub open spec fn apply_field(
    m: Map<Seq<char>, FieldInput>,
    lines: Seq<Seq<char>>,
    f: Field,
) -> Map<Seq<char>, FieldInput> {
    if f.vector {
        insert_items(m, f.name@, line_items(lines[f.line as int]))
    } else {
        m.insert(f.name@, FieldInput::Literal(lines[f.line as int]))
    }
}

/// The assignments made by reading the fields of `layout` from `lines`, in order.
pub open spec fn assemble(lines: Seq<Seq<char>>, layout: Seq<Field>) -> Map<Seq<char>, FieldInput>
    decreases layout.len(),
{
    if layout.len() == 0 {
        Map::empty()
    } else {
        apply_field(assemble(lines, layout.drop_last()), lines, layout.last())
    }
}

/// Every field of `layout` refers to an existing line, and every vector
/// line is bracketed.
pub open spec fn fits(lines: Seq<Seq<char>>, layout: Seq<Field>) -> bool {
    forall|i: int|
        0 <= i < layout.len() ==> (#[trigger] layout[i]).line < lines.len() && (layout[i].vector
            ==> bracketed(lines[layout[i].line as int]))
}

/// Whether every field of `layout` can be read from `lines`.
pub fn lines_fit(lines: &Vec<Vec<char>>, layout: &Vec<Field>) -> (r: bool)
    ensures
        r == fits(chars_view(lines@), layout@),
{
    let mut i: usize = 0;
    while i < layout.len()
        invariant
            i <= layout@.len(),
            forall|j: int|
                0 <= j < i ==> (#[trigger] layout@[j]).line < lines@.len() && (layout@[j].vector
                    ==> bracketed(lines@[layout@[j].line as int]@)),
        decreases layout@.len() - i,
    {
        let f = layout[i];
        if f.line >= lines.len() {
            return false;
        }
        if f.vector {
            let l = &lines[f.line];
            let n = l.len();
            if n < 2 || (l[0] as u32) >= 128 || (l[n - 1] as u32) >= 128 {
                proof {
                    assert(layout@[i as int] == f);
                    assert(!bracketed(chars_view(lines@)[f.line as int]));
                }
                return false;
            }
        }
        i = i + 1;
    }
    true
}

/// The characters between the first and the last.
fn unbracket(l: &Vec<char>) -> (r: Vec<char>)
    requires
        l@.len() >= 2,
    ensures
        r@ == l@.subrange(1, l@.len() - 1),
{
    let n = l.len();
    let mut out: Vec<char> = Vec::new();
    let mut i: usize = 1;
    while i < n - 1
        invariant
            1 <= i <= n - 1,
            n == l@.len(),
            out@ == l@.subrange(1, i as int),
        decreases n - 1 - i,
    {
        out.push(l[i]);
        i = i + 1;
        proof {
            assert(out@ =~= l@.subrange(1, i as int));
        }
    }
    out
}

/// Assigns `name.i` the items of the bracketed line `l`.
fn insert_line_items(map: &mut InputMap, name: &[char], l: &Vec<char>)
    requires
        bracketed(l@),
    ensures
        final(map)@ == insert_items(old(map)@, name@, line_items(l@)),
{
    let inner = unbracket(l);
    let items = split(&inner, ',');
    let ghost iv = chars_view(items@);
    let mut i: usize = 0;
    proof {
        assert(iv.take(0) =~= Seq::<Seq<char>>::empty());
    }
    while i < items.len()
        invariant
            i <= items@.len(),
            iv == chars_view(items@),
            iv == line_items(l@),
            map@ == insert_items(old(map)@, name@, iv.take(i as int)),
        decreases items@.len() - i,
    {
        let key = indexed_name(name, i);
        let word = items[i].clone();
        proof {
            assert(word@ =~= items@[i as int]@);
            assert(iv.take(i + 1).drop_last() =~= iv.take(i as int));
            assert(iv.take(i + 1).last() == iv[i as int]);
        }
        map.insert(key, InputValue::Literal(word));
        i = i + 1;
    }
    proof {
        assert(iv.take(items@.len() as int) =~= iv);
    }
}

/// Reads the fields of `layout` from `lines`, in order.
pub fn fill(lines: &Vec<Vec<char>>, layout: &Vec<Field>) -> (r: InputMap)
    requires
        fits(chars_view(lines@), layout@),
    ensures
        r@ == assemble(chars_view(lines@), layout@),
{
    let ghost lv = chars_view(lines@);
    let mut map = InputMap::new();
    let mut i: usize = 0;
    proof {
        assert(layout@.take(0) =~= Seq::<Field>::empty());
    }
    while i < layout.len()
        invariant
            i <= layout@.len(),
            lv == chars_view(lines@),
            fits(lv, layout@),
            map@ == assemble(lv, layout@.take(i as int)),
        decreases layout@.len() - i,
    {
        let f = layout[i];
        proof {
            assert(layout@[i as int] == f);
            assert(layout@.take(i + 1).drop_last() =~= layout@.take(i as int));
            assert(layout@.take(i + 1).last() == f);
        }
        let name = str_chars(f.name);
        let l = &lines[f.line];
        if f.vector {
            insert_line_items(&mut map, &name, l);
        } else {
            let whole = l.clone();
            proof {
                assert(whole@ =~= l@);
            }
            map.insert(name, InputValue::Literal(whole));
        }
        i = i + 1;
    }
    proof {
        assert(layout@.take(layout@.len() as int) =~= layout@);
    }
    map
}

/// Fields read by [`prover_input_pcs_sha`].
pub open spec fn pcs_sha_prover_layout() -> Seq<Field> {
    seq![
        Field { line: 0, name: "ID_A", vector: true },
        Field { line: 1, name: "N_ID_A", vector: true },
        Field { line: 2, name: "salt", vector: true },
        Field { line: 3, name: "EM", vector: true },
        Field { line: 4, name: "r", vector: true },
        Field { line: 5, name: "blinder", vector: true },
        Field { line: 6, name: "blinded", vector: true },
        Field { line: 7, name: "ID_B", vector: true },
        Field { line: 8, name: "N_H", vector: true },
        Field { line: 9, name: "H_r", vector: false },
        Field { line: 10, name: "H", vector: true },
        Field { line: 11, name: "N_old_token", vector: true },
        Field { line: 12, name: "old_token", vector: true },
        Field { line: 13, name: "left_leaf", vector: false },
        Field { line: 14, name: "direction_left", vector: true },
        Field { line: 15, name: "auth_path_left", vector: true },
        Field { line: 16, name: "right_leaf", vector: false },
        Field { line: 17, name: "direction_right", vector: true },
        Field { line: 18, name: "auth_path_right", vector: true },
        Field { line: 19, name: "sub_root", vector: false },
        Field { line: 20, name: "ID_A", vector: true },
        Field { line: 21, name: "direction_root", vector: true },
        Field { line: 22, name: "auth_path_root", vector: true },
        Field { line: 23, name: "root", vector: false },
    ]
}

/// Fields read by [`prover_input_pcs_sha`].
pub fn pcs_sha_prover_layout_fields() -> (r: Vec<Field>)
    ensures
        r@ == pcs_sha_prover_layout(),
{
    let r = vec![
        Field { line: 0, name: "ID_A", vector: true },
        Field { line: 1, name: "N_ID_A", vector: true },
        Field { line: 2, name: "salt", vector: true },
        Field { line: 3, name: "EM", vector: true },
        Field { line: 4, name: "r", vector: true },
        Field { line: 5, name: "blinder", vector: true },
        Field { line: 6, name: "blinded", vector: true },
        Field { line: 7, name: "ID_B", vector: true },
        Field { line: 8, name: "N_H", vector: true },
        Field { line: 9, name: "H_r", vector: false },
        Field { line: 10, name: "H", vector: true },
        Field { line: 11, name: "N_old_token", vector: true },
        Field { line: 12, name: "old_token", vector: true },
        Field { line: 13, name: "left_leaf", vector: false },
        Field { line: 14, name: "direction_left", vector: true },
        Field { line: 15, name: "auth_path_left", vector: true },
        Field { line: 16, name: "right_leaf", vector: false },
        Field { line: 17, name: "direction_right", vector: true },
        Field { line: 18, name: "auth_path_right", vector: true },
        Field { line: 19, name: "sub_root", vector: false },
        Field { line: 20, name: "ID_A", vector: true },
        Field { line: 21, name: "direction_root", vector: true },
        Field { line: 22, name: "auth_path_root", vector: true },
        Field { line: 23, name: "root", vector: false },
    ];
    proof {
        assert(r@ =~= pcs_sha_prover_layout());
    }
    r
}

/// Fields read by [`verifier_input_pcs_sha`].
pub open spec fn pcs_sha_verifier_layout() -> Seq<Field> {
    seq![
        Field { line: 6, name: "blinded", vector: true },
        Field { line: 10, name: "H", vector: true },
        Field { line: 12, name: "old_token", vector: true },
        Field { line: 23, name: "root", vector: false },
    ]
}

/// Fields read by [`verifier_input_pcs_sha`].
pub fn pcs_sha_verifier_layout_fields() -> (r: Vec<Field>)
    ensures
        r@ == pcs_sha_verifier_layout(),
{
    let r = vec![
        Field { line: 6, name: "blinded", vector: true },
        Field { line: 10, name: "H", vector: true },
        Field { line: 12, name: "old_token", vector: true },
        Field { line: 23, name: "root", vector: false },
    ];
    proof {
        assert(r@ =~= pcs_sha_verifier_layout());
    }
    r
}

/// Fields read by [`prover_input_pcs_poseidon`].
pub open spec fn pcs_poseidon_prover_layout() -> Seq<Field> {
    seq![
        Field { line: 0, name: "ID_A", vector: true },
        Field { line: 1, name: "N_ID_A", vector: true },
        Field { line: 2, name: "salt", vector: true },
        Field { line: 3, name: "EM", vector: true },
        Field { line: 4, name: "r", vector: true },
        Field { line: 5, name: "blinder", vector: true },
        Field { line: 6, name: "blinded", vector: true },
        Field { line: 7, name: "ID_B", vector: true },
        Field { line: 8, name: "N_H", vector: true },
        Field { line: 9, name: "H_r", vector: false },
        Field { line: 10, name: "H", vector: false },
        Field { line: 11, name: "N_old_token", vector: true },
        Field { line: 12, name: "old_token", vector: false },
        Field { line: 13, name: "left_leaf", vector: false },
        Field { line: 14, name: "direction_left", vector: true },
        Field { line: 15, name: "auth_path_left", vector: true },
        Field { line: 16, name: "right_leaf", vector: false },
        Field { line: 17, name: "direction_right", vector: true },
        Field { line: 18, name: "auth_path_right", vector: true },
        Field { line: 19, name: "sub_root", vector: false },
        Field { line: 20, name: "ID_A", vector: true },
        Field { line: 21, name: "direction_root", vector: true },
        Field { line: 22, name: "auth_path_root", vector: true },
        Field { line: 23, name: "root", vector: false },
    ]
}

/// Fields read by [`prover_input_pcs_poseidon`].
pub fn pcs_poseidon_prover_layout_fields() -> (r: Vec<Field>)
    ensures
        r@ == pcs_poseidon_prover_layout(),
{
    let r = vec![
        Field { line: 0, name: "ID_A", vector: true },
        Field { line: 1, name: "N_ID_A", vector: true },
        Field { line: 2, name: "salt", vector: true },
        Field { line: 3, name: "EM", vector: true },
        Field { line: 4, name: "r", vector: true },
        Field { line: 5, name: "blinder", vector: true },
        Field { line: 6, name: "blinded", vector: true },
        Field { line: 7, name: "ID_B", vector: true },
        Field { line: 8, name: "N_H", vector: true },
        Field { line: 9, name: "H_r", vector: false },
        Field { line: 10, name: "H", vector: false },
        Field { line: 11, name: "N_old_token", vector: true },
        Field { line: 12, name: "old_token", vector: false },
        Field { line: 13, name: "left_leaf", vector: false },
        Field { line: 14, name: "direction_left", vector: true },
        Field { line: 15, name: "auth_path_left", vector: true },
        Field { line: 16, name: "right_leaf", vector: false },
        Field { line: 17, name: "direction_right", vector: true },
        Field { line: 18, name: "auth_path_right", vector: true },
        Field { line: 19, name: "sub_root", vector: false },
        Field { line: 20, name: "ID_A", vector: true },
        Field { line: 21, name: "direction_root", vector: true },
        Field { line: 22, name: "auth_path_root", vector: true },
        Field { line: 23, name: "root", vector: false },
    ];
    proof {
        assert(r@ =~= pcs_poseidon_prover_layout());
    }
    r
}

/// Fields read by [`verifier_input_pcs_poseidon`].
pub open spec fn pcs_poseidon_verifier_layout() -> Seq<Field> {
    seq![
        Field { line: 6, name: "blinded", vector: true },
        Field { line: 10, name: "H", vector: false },
        Field { line: 12, name: "old_token", vector: false },
        Field { line: 23, name: "root", vector: false },
    ]
}

/// Fields read by [`verifier_input_pcs_poseidon`].
pub fn pcs_poseidon_verifier_layout_fields() -> (r: Vec<Field>)
    ensures
        r@ == pcs_poseidon_verifier_layout(),
{
    let r = vec![
        Field { line: 6, name: "blinded", vector: true },
        Field { line: 10, name: "H", vector: false },
        Field { line: 12, name: "old_token", vector: false },
        Field { line: 23, name: "root", vector: false },
    ];
    proof {
        assert(r@ =~= pcs_poseidon_verifier_layout());
    }
    r
}

/// Fields read by [`prover_input_pcs_poseidon_preprocess`] before the commitment.
pub open spec fn pcs_poseidon_preprocess_prover_layout() -> Seq<Field> {
    seq![
        Field { line: 0, name: "ID_A", vector: true },
        Field { line: 1, name: "N_ID_A", vector: true },
        Field { line: 2, name: "salt", vector: true },
        Field { line: 3, name: "EM", vector: true },
        Field { line: 4, name: "r", vector: true },
        Field { line: 5, name: "blinder", vector: true },
        Field { line: 6, name: "blinded", vector: true },
        Field { line: 7, name: "ID_B", vector: true },
        Field { line: 8, name: "N_H", vector: true },
        Field { line: 9, name: "H_r", vector: false },
        Field { line: 10, name: "H", vector: false },
        Field { line: 11, name: "N_old_token", vector: true },
        Field { line: 12, name: "old_token", vector: false },
    ]
}

/// Fields read by [`prover_input_pcs_poseidon_preprocess`] before the commitment.
pub fn pcs_poseidon_preprocess_prover_layout_fields() -> (r: Vec<Field>)
    ensures
        r@ == pcs_poseidon_preprocess_prover_layout(),
{
    let r = vec![
        Field { line: 0, name: "ID_A", vector: true },
        Field { line: 1, name: "N_ID_A", vector: true },
        Field { line: 2, name: "salt", vector: true },
        Field { line: 3, name: "EM", vector: true },
        Field { line: 4, name: "r", vector: true },
        Field { line: 5, name: "blinder", vector: true },
        Field { line: 6, name: "blinded", vector: true },
        Field { line: 7, name: "ID_B", vector: true },
        Field { line: 8, name: "N_H", vector: true },
        Field { line: 9, name: "H_r", vector: false },
        Field { line: 10, name: "H", vector: false },
        Field { line: 11, name: "N_old_token", vector: true },
        Field { line: 12, name: "old_token", vector: false },
    ];
    proof {
        assert(r@ =~= pcs_poseidon_preprocess_prover_layout());
    }
    r
}

/// Fields read by [`verifier_input_pcs_preprocess`] before the commitment.
pub open spec fn pcs_preprocess_verifier_layout() -> Seq<Field> {
    seq![
        Field { line: 6, name: "blinded", vector: true },
        Field { line: 10, name: "H", vector: false },
        Field { line: 12, name: "old_token", vector: false },
    ]
}

/// Fields read by [`verifier_input_pcs_preprocess`] before the commitment.
pub fn pcs_preprocess_verifier_layout_fields() -> (r: Vec<Field>)
    ensures
        r@ == pcs_preprocess_verifier_layout(),
{
    let r = vec![
        Field { line: 6, name: "blinded", vector: true },
        Field { line: 10, name: "H", vector: false },
        Field { line: 12, name: "old_token", vector: false },
    ];
    proof {
        assert(r@ =~= pcs_preprocess_verifier_layout());
    }
    r
}

/// Fields read by [`prover_input_sha_preprocess`] before the commitment.
pub open spec fn sha_preprocess_prover_layout() -> Seq<Field> {
    seq![
        Field { line: 0, name: "ID_A", vector: true },
        Field { line: 1, name: "N_ID_A", vector: true },
        Field { line: 2, name: "salt", vector: true },
        Field { line: 3, name: "EM", vector: true },
        Field { line: 4, name: "blinder", vector: true },
        Field { line: 5, name: "blinded", vector: true },
        Field { line: 6, name: "ID_B", vector: true },
        Field { line: 7, name: "N_H", vector: true },
        Field { line: 8, name: "H_r", vector: false },
        Field { line: 9, name: "H", vector: true },
        Field { line: 10, name: "N_old_token", vector: true },
        Field { line: 11, name: "old_token", vector: true },
    ]
}

/// Fields read by [`prover_input_sha_preprocess`] before the commitment.
pub fn sha_preprocess_prover_layout_fields() -> (r: Vec<Field>)
    ensures
        r@ == sha_preprocess_prover_layout(),
{
    let r = vec![
        Field { line: 0, name: "ID_A", vector: true },
        Field { line: 1, name: "N_ID_A", vector: true },
        Field { line: 2, name: "salt", vector: true },
        Field { line: 3, name: "EM", vector: true },
        Field { line: 4, name: "blinder", vector: true },
        Field { line: 5, name: "blinded", vector: true },
        Field { line: 6, name: "ID_B", vector: true },
        Field { line: 7, name: "N_H", vector: true },
        Field { line: 8, name: "H_r", vector: false },
        Field { line: 9, name: "H", vector: true },
        Field { line: 10, name: "N_old_token", vector: true },
        Field { line: 11, name: "old_token", vector: true },
    ];
    proof {
        assert(r@ =~= sha_preprocess_prover_layout());
    }
    r
}

/// Fields read by [`verifier_input_sha_preprocess`] before the commitment.
pub open spec fn sha_preprocess_verifier_layout() -> Seq<Field> {
    seq![
        Field { line: 5, name: "blinded", vector: true },
        Field { line: 9, name: "H", vector: true },
        Field { line: 11, name: "old_token", vector: true },
    ]
}

/// Fields read by [`verifier_input_sha_preprocess`] before the commitment.
pub fn sha_preprocess_verifier_layout_fields() -> (r: Vec<Field>)
    ensures
        r@ == sha_preprocess_verifier_layout(),
{
    let r = vec![
        Field { line: 5, name: "blinded", vector: true },
        Field { line: 9, name: "H", vector: true },
        Field { line: 11, name: "old_token", vector: true },
    ];
    proof {
        assert(r@ =~= sha_preprocess_verifier_layout());
    }
    r
}

/// Fields read by [`prover_input_token_revocation`] before the commitment.
pub open spec fn token_revocation_prover_layout() -> Seq<Field> {
    seq![
        Field { line: 0, name: "left_leaf", vector: false },
        Field { line: 1, name: "direction_left", vector: true },
        Field { line: 2, name: "auth_path_left", vector: true },
        Field { line: 3, name: "right_leaf", vector: false },
        Field { line: 4, name: "direction_right", vector: true },
        Field { line: 5, name: "auth_path_right", vector: true },
        Field { line: 6, name: "sub_root", vector: false },
        Field { line: 7, name: "ID_A", vector: true },
        Field { line: 8, name: "direction_root", vector: true },
        Field { line: 9, name: "auth_path_root", vector: true },
        Field { line: 10, name: "root", vector: false },
    ]
}

/// Fields read by [`prover_input_token_revocation`] before the commitment.
pub fn token_revocation_prover_layout_fields() -> (r: Vec<Field>)
    ensures
        r@ == token_revocation_prover_layout(),
{
    let r = vec![
        Field { line: 0, name: "left_leaf", vector: false },
        Field { line: 1, name: "direction_left", vector: true },
        Field { line: 2, name: "auth_path_left", vector: true },
        Field { line: 3, name: "right_leaf", vector: false },
        Field { line: 4, name: "direction_right", vector: true },
        Field { line: 5, name: "auth_path_right", vector: true },
        Field { line: 6, name: "sub_root", vector: false },
        Field { line: 7, name: "ID_A", vector: true },
        Field { line: 8, name: "direction_root", vector: true },
        Field { line: 9, name: "auth_path_root", vector: true },
        Field { line: 10, name: "root", vector: false },
    ];
    proof {
        assert(r@ =~= token_revocation_prover_layout());
    }
    r
}

/// Fields read by [`verifier_input_token_revocation`] before the commitment.
pub open spec fn token_revocation_verifier_layout() -> Seq<Field> {
    seq![
        Field { line: 10, name: "root", vector: false },
    ]
}

/// Fields read by [`verifier_input_token_revocation`] before the commitment.
pub fn token_revocation_verifier_layout_fields() -> (r: Vec<Field>)
    ensures
        r@ == token_revocation_verifier_layout(),
{
    let r = vec![
        Field { line: 10, name: "root", vector: false },
    ];
    proof {
        assert(r@ =~= token_revocation_verifier_layout());
    }
    r
}

// ---------------------------------------------------------------------------
// Which fields assign which inputs.
// ---------------------------------------------------------------------------

/// `s` holds no `.`.
pub open spec fn dotless(s: Seq<char>) -> bool {
    forall|i: int| 0 <= i < s.len() ==> s[i] != '.'
}

/// `k` is the input `name` or one of the inputs `name.i`.
pub open spec fn owned_by(name: Seq<char>, k: Seq<char>) -> bool {
    k == name || exists|i: nat| #[trigger] indexed_key(name, i) == k
}

/// Some field of `layout` owns `k`.
pub open spec fn owned_in(layout: Seq<Field>, k: Seq<char>) -> bool {
    exists|i: int| 0 <= i < layout.len() && owned_by(#[trigger] layout[i].name@, k)
}

/// The two maps agree at `k`: both lack it, or both hold the same value.
pub open spec fn agree_at(
    a: Map<Seq<char>, FieldInput>,
    b: Map<Seq<char>, FieldInput>,
    k: Seq<char>,
) -> bool {
    &&& a.contains_key(k) == b.contains_key(k)
    &&& a.contains_key(k) ==> a[k] == b[k]
}

/// Number of fields of `layout` named `n`.
pub open spec fn name_count(layout: Seq<Field>, n: Seq<char>) -> nat
    decreases layout.len(),
{
    if layout.len() == 0 {
        0
    } else {
        name_count(layout.drop_last(), n) + if layout.last().name@ == n {
            1nat
        } else {
            0nat
        }
    }
}

/// Number of fields of `layout` from index `k` on named `n`.
pub open spec fn name_count_from(layout: Seq<Field>, n: Seq<char>, k: nat) -> nat
    decreases layout.len() - k,
{
    if k >= layout.len() {
        0
    } else {
        (if layout[k as int].name@ == n {
            1nat
        } else {
            0nat
        }) + name_count_from(layout, n, k + 1)
    }
}

proof fn lemma_name_count_from_drop_last(layout: Seq<Field>, n: Seq<char>, k: nat)
    requires
        k < layout.len(),
    ensures
        name_count_from(layout, n, k) == name_count_from(layout.drop_last(), n, k) + (
        if layout.last().name@ == n {
            1nat
        } else {
            0nat
        }),
    decreases layout.len() - k,
{
    let dl = layout.drop_last();
    if k + 1 < layout.len() {
        lemma_name_count_from_drop_last(layout, n, k + 1);
        assert(dl[k as int] == layout[k as int]);
        assert(name_count_from(dl, n, k) == (if dl[k as int].name@ == n {
            1nat
        } else {
            0nat
        }) + name_count_from(dl, n, k + 1));
    } else {
        assert(layout[k as int] == layout.last());
        assert(name_count_from(layout, n, k + 1) == 0);
        assert(name_count_from(dl, n, k) == 0);
    }
}

/// Counting from the front gives the same number.
pub proof fn lemma_name_count_from(layout: Seq<Field>, n: Seq<char>)
    ensures
        name_count(layout, n) == name_count_from(layout, n, 0),
    decreases layout.len(),
{
    if layout.len() > 0 {
        lemma_name_count_from(layout.drop_last(), n);
        lemma_name_count_from_drop_last(layout, n, 0);
    }
}

/// The last field of `layout` named `n`.
pub open spec fn field_named(layout: Seq<Field>, n: Seq<char>) -> Field
    recommends
        name_count(layout, n) > 0,
    decreases layout.len(),
{
    if layout.len() == 0 {
        arbitrary()
    } else if layout.last().name@ == n {
        layout.last()
    } else {
        field_named(layout.drop_last(), n)
    }
}

/// Every field name of `layout` is free of `.`.
pub open spec fn dotless_names(layout: Seq<Field>) -> bool {
    forall|i: int| 0 <= i < layout.len() ==> dotless(#[trigger] layout[i].name@)
}

proof fn lemma_indexed_key_dot(name: Seq<char>, i: nat)
    requires
        dotless(name),
    ensures
        indexed_key(name, i).len() > name.len(),
        indexed_key(name, i)[name.len() as int] == '.',
        indexed_key(name, i).take(name.len() as int) == name,
{
    assert(indexed_key(name, i).take(name.len() as int) =~= name);
}

/// A dotless name owns no key of another dotless name.
proof fn lemma_owned_by_one_name(a: Seq<char>, b: Seq<char>, k: Seq<char>)
    requires
        dotless(a),
        dotless(b),
        a != b,
        owned_by(a, k),
    ensures
        !owned_by(b, k),
{
    if owned_by(b, k) {
        if k == a {
            if k != b {
                let j = choose|j: nat| #[trigger] indexed_key(b, j) == k;
                lemma_indexed_key_dot(b, j);
                assert(a[b.len() as int] == '.');
            }
        } else {
            let i = choose|i: nat| #[trigger] indexed_key(a, i) == k;
            lemma_indexed_key_dot(a, i);
            if k == b {
                assert(b[a.len() as int] == '.');
            } else {
                let j = choose|j: nat| #[trigger] indexed_key(b, j) == k;
                lemma_indexed_key_dot(b, j);
                if a.len() < b.len() {
                    assert(k[a.len() as int] == b[a.len() as int]);
                } else if b.len() < a.len() {
                    assert(k[b.len() as int] == a[b.len() as int]);
                } else {
                    assert(a == k.take(a.len() as int));
                }
            }
        }
    }
}

proof fn lemma_insert_items_frame(
    m: Map<Seq<char>, FieldInput>,
    name: Seq<char>,
    items: Seq<Seq<char>>,
    k: Seq<char>,
)
    requires
        !owned_by(name, k),
    ensures
        agree_at(insert_items(m, name, items), m, k),
    decreases items.len(),
{
    if items.len() > 0 {
        lemma_insert_items_frame(m, name, items.drop_last(), k);
        assert(indexed_key(name, (items.len() - 1) as nat) != k);
    }
}

proof fn lemma_insert_items_agree(
    m1: Map<Seq<char>, FieldInput>,
    m2: Map<Seq<char>, FieldInput>,
    name: Seq<char>,
    items: Seq<Seq<char>>,
    k: Seq<char>,
)
    requires
        agree_at(m1, m2, k),
    ensures
        agree_at(insert_items(m1, name, items), insert_items(m2, name, items), k),
    decreases items.len(),
{
    if items.len() > 0 {
        lemma_insert_items_agree(m1, m2, name, items.drop_last(), k);
    }
}

proof fn lemma_apply_field_frame(
    m: Map<Seq<char>, FieldInput>,
    lines: Seq<Seq<char>>,
    f: Field,
    k: Seq<char>,
)
    requires
        !owned_by(f.name@, k),
    ensures
        agree_at(apply_field(m, lines, f), m, k),
{
    if f.vector {
        lemma_insert_items_frame(m, f.name@, line_items(lines[f.line as int]), k);
    }
}

proof fn lemma_apply_field_agree(
    m1: Map<Seq<char>, FieldInput>,
    m2: Map<Seq<char>, FieldInput>,
    lines: Seq<Seq<char>>,
    f: Field,
    k: Seq<char>,
)
    requires
        agree_at(m1, m2, k),
    ensures
        agree_at(apply_field(m1, lines, f), apply_field(m2, lines, f), k),
{
    if f.vector {
        lemma_insert_items_agree(m1, m2, f.name@, line_items(lines[f.line as int]), k);
    }
}

/// A key that no field owns is not assigned.
pub proof fn lemma_assemble_unowned(lines: Seq<Seq<char>>, layout: Seq<Field>, k: Seq<char>)
    requires
        forall|i: int| 0 <= i < layout.len() ==> !owned_by(#[trigger] layout[i].name@, k),
    ensures
        !assemble(lines, layout).contains_key(k),
    decreases layout.len(),
{
    if layout.len() > 0 {
        let l = layout.drop_last();
        assert forall|i: int| 0 <= i < l.len() implies !owned_by(#[trigger] l[i].name@, k) by {
            assert(l[i] == layout[i]);
        }
        lemma_assemble_unowned(lines, l, k);
        assert(!owned_by(layout[layout.len() - 1].name@, k));
        lemma_apply_field_frame(assemble(lines, l), lines, layout.last(), k);
    }
}

/// A key without `.` that is no field's name is not assigned.
pub proof fn lemma_dotless_key_unassigned(lines: Seq<Seq<char>>, layout: Seq<Field>, k: Seq<char>)
    requires
        dotless(k),
        dotless_names(layout),
        forall|i: int| 0 <= i < layout.len() ==> #[trigger] layout[i].name@ != k,
    ensures
        !assemble(lines, layout).contains_key(k),
        !owned_in(layout, k),
{
    assert forall|i: int| 0 <= i < layout.len() implies !owned_by(#[trigger] layout[i].name@, k) by {
        let n = layout[i].name@;
        assert(dotless(n));
        if owned_by(n, k) {
            let j = choose|j: nat| #[trigger] indexed_key(n, j) == k;
            lemma_indexed_key_dot(n, j);
            assert(k[n.len() as int] == '.');
        }
    }
    lemma_assemble_unowned(lines, layout, k);
}

/// At a key of name `n`, what is assigned is decided by the field named `n`
/// alone, where there is at most one.
proof fn lemma_assemble_at(lines: Seq<Seq<char>>, layout: Seq<Field>, n: Seq<char>, k: Seq<char>)
    requires
        dotless(n),
        dotless_names(layout),
        owned_by(n, k),
        name_count(layout, n) <= 1,
    ensures
        name_count(layout, n) == 0 ==> !assemble(lines, layout).contains_key(k),
        name_count(layout, n) == 1 ==> agree_at(
            assemble(lines, layout),
            apply_field(Map::empty(), lines, field_named(layout, n)),
            k,
        ),
    decreases layout.len(),
{
    if layout.len() > 0 {
        let l = layout.drop_last();
        let g = layout.last();
        assert forall|i: int| 0 <= i < l.len() implies dotless(#[trigger] l[i].name@) by {
            assert(l[i] == layout[i]);
        }
        assert(dotless(layout[layout.len() - 1].name@));
        lemma_assemble_at(lines, l, n, k);
        if g.name@ == n {
            lemma_apply_field_agree(assemble(lines, l), Map::empty(), lines, g, k);
        } else {
            lemma_owned_by_one_name(n, g.name@, k);
            lemma_apply_field_frame(assemble(lines, l), lines, g, k);
        }
    }
}

pub proof fn lemma_field_named(layout: Seq<Field>, n: Seq<char>, i: int)
    requires
        0 <= i < layout.len(),
        layout[i].name@ == n,
        name_count(layout, n) == 1,
    ensures
        field_named(layout, n) == layout[i],
    decreases layout.len(),
{
    let l = layout.drop_last();
    if i < layout.len() - 1 {
        assert(l[i] == layout[i]);
        if layout.last().name@ == n {
            lemma_name_count_pos(l, n, i);
        } else {
            lemma_field_named(l, n, i);
        }
    }
}

proof fn lemma_name_count_pos(layout: Seq<Field>, n: Seq<char>, i: int)
    requires
        0 <= i < layout.len(),
        layout[i].name@ == n,
    ensures
        name_count(layout, n) >= 1,
    decreases layout.len(),
{
    if i < layout.len() - 1 {
        assert(layout.drop_last()[i] == layout[i]);
        lemma_name_count_pos(layout.drop_last(), n, i);
    }
}

/// Reading with layout `small` assigns nothing that reading with layout
/// `large` does not assign the same: where every name of `small` occurs once
/// in each layout, for the same field, and no name holds a `.`.
pub proof fn lemma_layout_within(lines: Seq<Seq<char>>, small: Seq<Field>, large: Seq<Field>)
    requires
        dotless_names(small),
        dotless_names(large),
        forall|i: int|
            0 <= i < small.len() ==> name_count(small, #[trigger] small[i].name@) == 1 && name_count(
                large,
                small[i].name@,
            ) == 1 && field_named(large, small[i].name@) == small[i],
    ensures
        forall|k: Seq<char>|
            #[trigger] assemble(lines, small).contains_key(k) ==> assemble(lines, large).contains_key(k)
                && assemble(lines, large)[k] == assemble(lines, small)[k],
{
    assert forall|k: Seq<char>| #[trigger] assemble(lines, small).contains_key(k) implies assemble(
        lines,
        large,
    ).contains_key(k) && assemble(lines, large)[k] == assemble(lines, small)[k] by {
        if forall|i: int| 0 <= i < small.len() ==> !owned_by(#[trigger] small[i].name@, k) {
            lemma_assemble_unowned(lines, small, k);
        } else {
            let i = choose|i: int| 0 <= i < small.len() && owned_by(#[trigger] small[i].name@, k);
            let n = small[i].name@;
            assert(name_count(small, n) == 1);
            lemma_field_named(small, n, i);
            lemma_assemble_at(lines, small, n, k);
            lemma_assemble_at(lines, large, n, k);
        }
    }
}

/// At a key that a field of `small` owns, reading with `small` and reading
/// with `large` agree, under the conditions of [`lemma_layout_within`].
pub proof fn lemma_layout_agree(
    lines: Seq<Seq<char>>,
    small: Seq<Field>,
    large: Seq<Field>,
    k: Seq<char>,
)
    requires
        dotless_names(small),
        dotless_names(large),
        forall|i: int|
            0 <= i < small.len() ==> name_count(small, #[trigger] small[i].name@) == 1 && name_count(
                large,
                small[i].name@,
            ) == 1 && field_named(large, small[i].name@) == small[i],
        owned_in(small, k),
    ensures
        agree_at(assemble(lines, large), assemble(lines, small), k),
{
    let i = choose|i: int| 0 <= i < small.len() && owned_by(#[trigger] small[i].name@, k);
    let n = small[i].name@;
    assert(name_count(small, n) == 1);
    lemma_field_named(small, n, i);
    lemma_assemble_at(lines, small, n, k);
    lemma_assemble_at(lines, large, n, k);
}

/// Reading with `layout` looks at the lines its fields name and at no other:
/// two files that agree on those lines give the same map.
pub proof fn lemma_assemble_local(a: Seq<Seq<char>>, b: Seq<Seq<char>>, layout: Seq<Field>)
    requires
        forall|i: int|
            0 <= i < layout.len() ==> (#[trigger] layout[i]).line < a.len() && layout[i].line
                < b.len() && a[layout[i].line as int] == b[layout[i].line as int],
    ensures
        assemble(a, layout) == assemble(b, layout),
    decreases layout.len(),
{
    if layout.len() > 0 {
        let l = layout.drop_last();
        assert forall|i: int| 0 <= i < l.len() implies (#[trigger] l[i]).line < a.len() && l[i].line
            < b.len() && a[l[i].line as int] == b[l[i].line as int] by {
            assert(l[i] == layout[i]);
        }
        lemma_assemble_local(a, b, l);
        let f = layout[layout.len() - 1];
        assert(a[f.line as int] == b[f.line as int]);
    }
}

/// `m` holds what a field named `name` reads from line `k` of `lines`: item
/// `i` of the line at `name.i` for a vector field, the whole line at `name`
/// for a scalar field.
pub open spec fn reads_line(
    m: Map<Seq<char>, FieldInput>,
    lines: Seq<Seq<char>>,
    name: Seq<char>,
    k: int,
    vector: bool,
) -> bool {
    if vector {
        forall|i: nat|
            i < line_items(lines[k]).len() ==> #[trigger] m.contains_key(indexed_key(name, i))
                && m[indexed_key(name, i)] == FieldInput::Literal(line_items(lines[k])[i as int])
    } else {
        m.contains_key(name) && m[name] == FieldInput::Literal(lines[k])
    }
}

proof fn lemma_indexed_key_injective(name: Seq<char>, a: nat, b: nat)
    requires
        indexed_key(name, a) == indexed_key(name, b),
    ensures
        a == b,
{
    let n = name.len() as int;
    assert(indexed_key(name, a).skip(n + 1) =~= decimal(a));
    assert(indexed_key(name, b).skip(n + 1) =~= decimal(b));
    lemma_decimal_digits(a);
    lemma_decimal_digits(b);
}

proof fn lemma_insert_items_value(
    m: Map<Seq<char>, FieldInput>,
    name: Seq<char>,
    items: Seq<Seq<char>>,
    i: nat,
)
    requires
        i < items.len(),
    ensures
        insert_items(m, name, items).contains_key(indexed_key(name, i)),
        insert_items(m, name, items)[indexed_key(name, i)] == FieldInput::Literal(items[i as int]),
    decreases items.len(),
{
    let last = (items.len() - 1) as nat;
    if i < last {
        lemma_insert_items_value(m, name, items.drop_last(), i);
        if indexed_key(name, last) == indexed_key(name, i) {
            lemma_indexed_key_injective(name, last, i);
        }
    }
}

/// A map that holds what a field reads still holds it after a key without
/// `.` other than the field's name is set.
pub proof fn lemma_reads_line_insert(
    m: Map<Seq<char>, FieldInput>,
    lines: Seq<Seq<char>>,
    name: Seq<char>,
    k: int,
    vector: bool,
    c: Seq<char>,
    v: FieldInput,
)
    requires
        reads_line(m, lines, name, k, vector),
        dotless(c),
        c != name,
    ensures
        reads_line(m.insert(c, v), lines, name, k, vector),
{
    if vector {
        assert forall|i: nat| i < line_items(lines[k]).len() implies #[trigger] m.insert(
            c,
            v,
        ).contains_key(indexed_key(name, i)) && m.insert(c, v)[indexed_key(name, i)]
            == FieldInput::Literal(line_items(lines[k])[i as int]) by {
            assert(m.contains_key(indexed_key(name, i)));
            assert(indexed_key(name, i)[name.len() as int] == '.');
            if indexed_key(name, i) == c {
                assert(c[name.len() as int] == '.');
            }
        }
    }
}

/// Reading with `layout` gives each key of the last field named `n` what
/// that field reads from its line.
pub proof fn lemma_assemble_reads_last(lines: Seq<Seq<char>>, layout: Seq<Field>, j: int)
    requires
        dotless_names(layout),
        0 <= j < layout.len(),
        forall|j2: int| j < j2 < layout.len() ==> (#[trigger] layout[j2]).name@ != layout[j].name@,
    ensures
        reads_line(
            assemble(lines, layout),
            lines,
            layout[j].name@,
            layout[j].line as int,
            layout[j].vector,
        ),
    decreases layout.len(),
{
    let l = layout.drop_last();
    let g = layout.last();
    let f = layout[j];
    let n = f.name@;
    let k = f.line as int;
    if j == layout.len() - 1 {
        if f.vector {
            assert forall|i: nat| i < line_items(lines[k]).len() implies #[trigger] assemble(
                lines,
                layout,
            ).contains_key(indexed_key(n, i)) && assemble(lines, layout)[indexed_key(n, i)]
                == FieldInput::Literal(line_items(lines[k])[i as int]) by {
                lemma_insert_items_value(assemble(lines, l), n, line_items(lines[k]), i);
            }
        }
    } else {
        assert forall|i: int| 0 <= i < l.len() implies dotless(#[trigger] l[i].name@) by {
            assert(l[i] == layout[i]);
        }
        assert forall|j2: int| j < j2 < l.len() implies (#[trigger] l[j2]).name@ != l[j].name@ by {
            assert(l[j2] == layout[j2]);
        }
        assert(l[j] == f);
        lemma_assemble_reads_last(lines, l, j);
        assert(g == layout[layout.len() - 1]);
        assert(g.name@ != n);
        assert(dotless(g.name@));
        assert(dotless(n));
        let before = assemble(lines, l);
        if f.vector {
            assert forall|i: nat| i < line_items(lines[k]).len() implies #[trigger] assemble(
                lines,
                layout,
            ).contains_key(indexed_key(n, i)) && assemble(lines, layout)[indexed_key(n, i)]
                == FieldInput::Literal(line_items(lines[k])[i as int]) by {
                let key = indexed_key(n, i);
                assert(before.contains_key(key));
                assert(owned_by(n, key));
                lemma_owned_by_one_name(n, g.name@, key);
                lemma_apply_field_frame(before, lines, g, key);
            }
        } else {
            assert(owned_by(n, n));
            lemma_owned_by_one_name(n, g.name@, n);
            lemma_apply_field_frame(before, lines, g, n);
        }
    }
}

// ---------------------------------------------------------------------------
// Committed identity.
// ---------------------------------------------------------------------------

/// The byte values of the items of a vector line.
pub open spec fn id_bytes(l: Seq<char>) -> Seq<int> {
    Seq::new(line_items(l).len(), |i: int| u8_literal(trim_spec(line_items(l)[i]))->0 as int)
}

/// A bracketed line whose items, trimmed, are decimal byte values.
pub open spec fn id_parses(l: Seq<char>) -> bool {
    &&& bracketed(l)
    &&& l.len() <= usize::MAX / 4
    &&& forall|i: int|
        0 <= i < line_items(l).len() ==> (#[trigger] u8_literal(trim_spec(line_items(l)[i]))) is Some
}

/// The identity bytes packed 31 to a field element; the first element.
pub open spec fn id_packed(l: Seq<char>) -> int {
    let b = id_bytes(l);
    packed(pad_spec(b, 31 * ((b.len() + 30) / 31) as int).subrange(0, 31))
}

/// The commitment to the identity on line `l` with randomness `rand`:
/// the Poseidon hash of `[rand, first packed element of the identity]`.
pub open spec fn id_commitment(l: Seq<char>, rand: nat, consts: PoseidonConstants) -> int {
    poseidon_spec(seq![rand as int, id_packed(l)], consts)
}

proof fn lemma_split_count(s: Seq<char>, sep: char)
    ensures
        split_spec(s, sep).len() <= s.len() + 1,
    decreases s.len(),
{
    if s.len() > 0 {
        lemma_split_count(s.drop_last(), sep);
        crate::text::lemma_split_len(s.drop_last(), sep);
        let prev = split_spec(s.drop_last(), sep);
        assert(split_spec(s, sep).len() <= prev.len() + 1);
    } else {
        assert(split_spec(s, sep) == seq![Seq::<char>::empty()]);
    }
}

/// Whether line `l` holds an identity that [`commit_to_id`] accepts.
pub fn id_line_parses(l: &Vec<char>) -> (r: bool)
    ensures
        r == id_parses(l@),
{
    let n = l.len();
    if n < 2 || (l[0] as u32) >= 128 || (l[n - 1] as u32) >= 128 || n > usize::MAX / 4 {
        return false;
    }
    let inner = unbracket(l);
    let items = split(&inner, ',');
    let ghost iv = chars_view(items@);
    let mut i: usize = 0;
    while i < items.len()
        invariant
            i <= items@.len(),
            iv == chars_view(items@),
            iv == line_items(l@),
            forall|j: int| 0 <= j < i ==> (#[trigger] u8_literal(trim_spec(iv[j]))) is Some,
        decreases items@.len() - i,
    {
        let t = trim(&items[i]);
        proof {
            assert(iv[i as int] == items@[i as int]@);
        }
        if parse_u8(&t).is_none() {
            return false;
        }
        i = i + 1;
    }
    true
}

/// Commits to the identity on line `l`: its items are read as bytes, packed
/// 31 to a field element, and the first element is hashed with `rand`.
pub fn commit_to_id(l: &Vec<char>, rand: &BigNat, consts: &PoseidonConstants) -> (r: BigNat)
    requires
        id_parses(l@),
        consts.supports(3),
    ensures
        r@ == id_commitment(l@, rand@, *consts),
{
    let inner = unbracket(l);
    let items = split(&inner, ',');
    let ghost iv = chars_view(items@);
    let mut bytes: Vec<BigNat> = Vec::new();
    let mut i: usize = 0;
    while i < items.len()
        invariant
            i <= items@.len(),
            iv == chars_view(items@),
            iv == line_items(l@),
            id_parses(l@),
            bytes@.len() == i,
            forall|j: int| 0 <= j < i ==> (#[trigger] nats_val(bytes@)[j]) == id_bytes(l@)[j],
        decreases items@.len() - i,
    {
        let t = trim(&items[i]);
        proof {
            assert(iv[i as int] == items@[i as int]@);
            assert(u8_literal(trim_spec(iv[i as int])) is Some);
        }
        let b = parse_u8(&t).unwrap();
        let ghost prev = bytes@;
        bytes.push(BigNat::from_u64(b as u64));
        proof {
            assert forall|j: int| 0 <= j < i + 1 implies (#[trigger] nats_val(bytes@)[j]) == id_bytes(
                l@,
            )[j] by {
                if j < i {
                    assert(bytes@[j] == prev[j]);
                    assert(nats_val(prev)[j] == id_bytes(l@)[j]);
                }
            }
        }
        i = i + 1;
    }
    proof {
        assert(nats_val(bytes@) =~= id_bytes(l@));
        lemma_split_count(l@.subrange(1, l@.len() - 1), ',');
    }
    let ghost bv = nats_val(bytes@);
    let words = pack_vector(bytes, 248, 8);
    proof {
        assert(248usize / 8usize == 31);
        assert((bv.len() + 31 - 1) / 31 >= 1);
    }
    let first = words[0].copy();
    let mut input: Vec<BigNat> = Vec::new();
    input.push(rand.copy());
    input.push(first);
    proof {
        assert(nats_val(input@) =~= seq![rand@ as int, id_packed(l@)]);
    }
    poseidon_hash(&nats_to_ints(&input), consts)
}

// ---------------------------------------------------------------------------
// Inputs of the token-derivation and non-revocation circuits.
// ---------------------------------------------------------------------------

/// Prover input of the SHA-256 token derivation: the lines of the input file
/// are read as [`pcs_sha_prover_layout`] describes.
pub fn prover_input_pcs_sha(lines: &Vec<Vec<char>>) -> (r: InputMap)
    requires
        fits(chars_view(lines@), pcs_sha_prover_layout()),
    ensures
        r@ == assemble(chars_view(lines@), pcs_sha_prover_layout()),
{
    fill(lines, &pcs_sha_prover_layout_fields())
}

/// Verifier input of the SHA-256 token derivation.
pub fn verifier_input_pcs_sha(lines: &Vec<Vec<char>>) -> (r: InputMap)
    requires
        fits(chars_view(lines@), pcs_sha_verifier_layout()),
    ensures
        r@ == assemble(chars_view(lines@), pcs_sha_verifier_layout()),
{
    fill(lines, &pcs_sha_verifier_layout_fields())
}

/// Prover input of the Poseidon token derivation.
pub fn prover_input_pcs_poseidon(lines: &Vec<Vec<char>>) -> (r: InputMap)
    requires
        fits(chars_view(lines@), pcs_poseidon_prover_layout()),
    ensures
        r@ == assemble(chars_view(lines@), pcs_poseidon_prover_layout()),
{
    fill(lines, &pcs_poseidon_prover_layout_fields())
}

/// Verifier input of the Poseidon token derivation.
pub fn verifier_input_pcs_poseidon(lines: &Vec<Vec<char>>) -> (r: InputMap)
    requires
        fits(chars_view(lines@), pcs_poseidon_verifier_layout()),
    ensures
        r@ == assemble(chars_view(lines@), pcs_poseidon_verifier_layout()),
{
    fill(lines, &pcs_poseidon_verifier_layout_fields())
}

/// The inputs that a prover with a committed identity adds: the commitment
/// randomness and the commitment to the identity on line `id_line`.
pub open spec fn with_commitment(
    m: Map<Seq<char>, FieldInput>,
    lines: Seq<Seq<char>>,
    id_line: int,
    rand: nat,
    consts: PoseidonConstants,
) -> Map<Seq<char>, FieldInput> {
    m.insert("commit_rand"@, FieldInput::Number(rand)).insert(
        "commit_ID_A"@,
        FieldInput::Number(id_commitment(lines[id_line], rand, consts) as nat),
    )
}

/// The commitment that a verifier adds.
pub open spec fn with_commitment_only(
    m: Map<Seq<char>, FieldInput>,
    lines: Seq<Seq<char>>,
    id_line: int,
    rand: nat,
    consts: PoseidonConstants,
) -> Map<Seq<char>, FieldInput> {
    m.insert(
        "commit_ID_A"@,
        FieldInput::Number(id_commitment(lines[id_line], rand, consts) as nat),
    )
}

fn add_commitment(
    map: &mut InputMap,
    lines: &Vec<Vec<char>>,
    id_line: usize,
    commit_rand: &BigNat,
    with_rand: bool,
    consts: &PoseidonConstants,
)
    requires
        id_line < lines@.len(),
        id_parses(lines@[id_line as int]@),
        consts.supports(3),
    ensures
        with_rand ==> final(map)@ == with_commitment(
            old(map)@,
            chars_view(lines@),
            id_line as int,
            commit_rand@,
            *consts,
        ),
        !with_rand ==> final(map)@ == with_commitment_only(
            old(map)@,
            chars_view(lines@),
            id_line as int,
            commit_rand@,
            *consts,
        ),
{
    if with_rand {
        map.insert(str_chars("commit_rand"), InputValue::Number(commit_rand.copy()));
    }
    let commitment = commit_to_id(&lines[id_line], commit_rand, consts);
    proof {
        assert(chars_view(lines@)[id_line as int] == lines@[id_line as int]@);
        crate::poseidon::lemma_poseidon_nonneg(seq![commit_rand@ as int, id_packed(lines@[id_line as int]@)], *consts);
    }
    map.insert(str_chars("commit_ID_A"), InputValue::Number(commitment));
}

/// Prover input of the Poseidon token derivation with a committed identity:
/// the fields of [`pcs_poseidon_preprocess_prover_layout`], then the
/// commitment randomness and the commitment to the identity on line 0.
pub fn prover_input_pcs_poseidon_preprocess(
    lines: &Vec<Vec<char>>,
    commit_rand: &BigNat,
    consts: &PoseidonConstants,
) -> (r: InputMap)
    requires
        fits(chars_view(lines@), pcs_poseidon_preprocess_prover_layout()),
        id_parses(lines@[0]@),
        consts.supports(3),
    ensures
        r@ == with_commitment(
            assemble(chars_view(lines@), pcs_poseidon_preprocess_prover_layout()),
            chars_view(lines@),
            0,
            commit_rand@,
            *consts,
        ),
{
    let mut map = fill(lines, &pcs_poseidon_preprocess_prover_layout_fields());
    proof {
        assert(pcs_poseidon_preprocess_prover_layout()[0].line == 0);
    }
    add_commitment(&mut map, lines, 0, commit_rand, true, consts);
    map
}

/// Verifier input of the token derivation with a committed identity (Poseidon).
pub fn verifier_input_pcs_preprocess(
    lines: &Vec<Vec<char>>,
    commit_rand: &BigNat,
    consts: &PoseidonConstants,
) -> (r: InputMap)
    requires
        fits(chars_view(lines@), pcs_preprocess_verifier_layout()),
        lines@.len() >= 1,
        id_parses(lines@[0]@),
        consts.supports(3),
    ensures
        r@ == with_commitment_only(
            assemble(chars_view(lines@), pcs_preprocess_verifier_layout()),
            chars_view(lines@),
            0,
            commit_rand@,
            *consts,
        ),
{
    let mut map = fill(lines, &pcs_preprocess_verifier_layout_fields());
    add_commitment(&mut map, lines, 0, commit_rand, false, consts);
    map
}

/// Prover input of the SHA-256 token derivation with a committed identity.
pub fn prover_input_sha_preprocess(
    lines: &Vec<Vec<char>>,
    commit_rand: &BigNat,
    consts: &PoseidonConstants,
) -> (r: InputMap)
    requires
        fits(chars_view(lines@), sha_preprocess_prover_layout()),
        id_parses(lines@[0]@),
        consts.supports(3),
    ensures
        r@ == with_commitment(
            assemble(chars_view(lines@), sha_preprocess_prover_layout()),
            chars_view(lines@),
            0,
            commit_rand@,
            *consts,
        ),
{
    let mut map = fill(lines, &sha_preprocess_prover_layout_fields());
    proof {
        assert(sha_preprocess_prover_layout()[0].line == 0);
    }
    add_commitment(&mut map, lines, 0, commit_rand, true, consts);
    map
}

/// Verifier input of the SHA-256 token derivation with a committed identity.
pub fn verifier_input_sha_preprocess(
    lines: &Vec<Vec<char>>,
    commit_rand: &BigNat,
    consts: &PoseidonConstants,
) -> (r: InputMap)
    requires
        fits(chars_view(lines@), sha_preprocess_verifier_layout()),
        lines@.len() >= 1,
        id_parses(lines@[0]@),
        consts.supports(3),
    ensures
        r@ == with_commitment_only(
            assemble(chars_view(lines@), sha_preprocess_verifier_layout()),
            chars_view(lines@),
            0,
            commit_rand@,
            *consts,
        ),
{
    let mut map = fill(lines, &sha_preprocess_verifier_layout_fields());
    add_commitment(&mut map, lines, 0, commit_rand, false, consts);
    map
}

/// Prover input of the non-revocation proof: the Merkle paths of
/// [`token_revocation_prover_layout`], then the commitment randomness and
/// the commitment to the identity on line 7.
pub fn prover_input_token_revocation(
    lines: &Vec<Vec<char>>,
    commit_rand: &BigNat,
    consts: &PoseidonConstants,
) -> (r: InputMap)
    requires
        fits(chars_view(lines@), token_revocation_prover_layout()),
        id_parses(lines@[7]@),
        consts.supports(3),
    ensures
        r@ == with_commitment(
            assemble(chars_view(lines@), token_revocation_prover_layout()),
            chars_view(lines@),
            7,
            commit_rand@,
            *consts,
        ),
{
    let mut map = fill(lines, &token_revocation_prover_layout_fields());
    proof {
        assert(token_revocation_prover_layout()[7].line == 7);
    }
    add_commitment(&mut map, lines, 7, commit_rand, true, consts);
    map
}

/// Verifier input of the non-revocation proof.
pub fn verifier_input_token_revocation(
    lines: &Vec<Vec<char>>,
    commit_rand: &BigNat,
    consts: &PoseidonConstants,
) -> (r: InputMap)
    requires
        fits(chars_view(lines@), token_revocation_verifier_layout()),
        lines@.len() >= 8,
        id_parses(lines@[7]@),
        consts.supports(3),
    ensures
        r@ == with_commitment_only(
            assemble(chars_view(lines@), token_revocation_verifier_layout()),
            chars_view(lines@),
            7,
            commit_rand@,
            *consts,
        ),
{
    let mut map = fill(lines, &token_revocation_verifier_layout_fields());
    add_commitment(&mut map, lines, 7, commit_rand, false, consts);
    map
}

} // verus!
