use vstd::prelude::*;
use vstd::arithmetic::div_mod::{lemma_fundamental_div_mod, lemma_fundamental_div_mod_converse};
use vstd::arithmetic::power2::pow2;
use crate::bignat::BigNat;
use crate::input_map::InputMap;
use crate::poseidon::PoseidonConstants;
use crate::text::{chars_view, str_chars};
use crate::commitment::{
    commit_to_point, commit_to_scalar, insert_numbers, point_commit_inputs, scalar_commit_inputs,
    scalar_shift, Poseidon,
};
use crate::ec::{
    be_val, generator_bytes, identity_bytes, p256_order, p256_scalar_mul, p256_uncompressed, ECPoint,
    P256Scalar,
};
use crate::input_map::{FieldInput, InputValue};
use crate::poseidon::poseidon_spec;
use crate::pcs::{
    dotless_names, name_count, field_named, lemma_layout_within, name_count_from,
    lemma_name_count_from, lemma_field_named, dotless, lemma_dotless_key_unassigned,
    assemble, fits, id_line_parses, id_parses, lines_fit, pcs_poseidon_preprocess_prover_layout,
    pcs_poseidon_preprocess_prover_layout_fields, pcs_poseidon_prover_layout,
    pcs_poseidon_prover_layout_fields, pcs_poseidon_verifier_layout,
    pcs_poseidon_verifier_layout_fields, pcs_preprocess_verifier_layout,
    pcs_preprocess_verifier_layout_fields, pcs_sha_prover_layout, pcs_sha_prover_layout_fields,
    pcs_sha_verifier_layout, pcs_sha_verifier_layout_fields, prover_input_pcs_poseidon,
    prover_input_pcs_poseidon_preprocess, prover_input_pcs_sha, prover_input_sha_preprocess,
    prover_input_token_revocation, sha_preprocess_prover_layout, sha_preprocess_prover_layout_fields,
    sha_preprocess_verifier_layout, sha_preprocess_verifier_layout_fields,
    token_revocation_prover_layout, token_revocation_prover_layout_fields,
    token_revocation_verifier_layout, token_revocation_verifier_layout_fields,
    verifier_input_pcs_poseidon, verifier_input_pcs_preprocess, verifier_input_pcs_sha,
    verifier_input_sha_preprocess, verifier_input_token_revocation, with_commitment,
    with_commitment_only, owned_in, owned_by, lemma_layout_agree, lemma_assemble_unowned, Field, lemma_assemble_local, reads_line, lemma_reads_line_insert, lemma_assemble_reads_last, id_commitment,
};

verus! {

/// The circuits for which inputs can be requested.
#[derive(PartialEq, Eq, Debug, Clone, Copy)]
pub enum ComputeType {
    /// RSA signature with advanced range check, hash outside the circuit
    VerifyRsaAdvComplete,
    /// RSA signature with advanced range check, hash inside the circuit
    VerifyRsaAdvWhole,
    /// EdDSA sigma protocol
    EddsaSigma,
    /// ECDSA with advanced range check and incomplete formula
    VerifyEcdsaAdvIncompl,
    /// ECDSA with advanced range check, incomplete formula and SHA-256
    VerifyEcdsaAdvIncomplWhole,
    /// ECDSA with the Sigmabus approach
    VerifyEcdsaSigma,
    /// ECDSA with the Sigmabus approach and hashing
    VerifyEcdsaSigmaWhole,
    /// Plain SHA-256
    Sha256Ori,
    /// Optimised SHA-256
    Sha256Adv,
    /// Post-compromise token derivation with SHA-256
    PcsSha,
    /// Post-compromise token derivation with Poseidon
    PcsPoseidon,
    /// Poseidon token derivation with a committed identity
    PcsPoseidonPreprocess,
    /// SHA-256 token derivation with a committed identity
    PcsShaPreprocess,
    /// Non-revocation (non-membership) proof
    NonMember,
}

/// Prover or verifier side.
pub enum Party {
    /// Prover
    Prover,
    /// Verifier
    Verifier,
}

/// Curve used by the Spartan back end.
#[derive(PartialEq, Eq, Debug, Clone, Copy)]
pub enum PfCurve {
    /// Curve T256
    T256,
    /// Curve25519
    Curve25519,
    /// Curve T25519
    T25519,
}

/// Why no input could be produced.
#[derive(PartialEq, Eq, Debug, Clone, Copy)]
pub enum InputError {
    /// The inputs of this circuit are not produced by this library.
    NotAvailable,
}

/// The circuits whose inputs this library produces.
pub open spec fn produced_here(compute: ComputeType) -> bool {
    match compute {
        ComputeType::PcsSha | ComputeType::PcsPoseidon | ComputeType::PcsPoseidonPreprocess
        | ComputeType::PcsShaPreprocess | ComputeType::NonMember => true,
        _ => false,
    }
}

/// What reading the prover input of `compute` needs from the input file.
pub open spec fn prover_lines_ok(
    compute: ComputeType,
    lines: Seq<Seq<char>>,
    consts: PoseidonConstants,
) -> bool {
    match compute {
        ComputeType::PcsSha => fits(lines, pcs_sha_prover_layout()),
        ComputeType::PcsPoseidon => fits(lines, pcs_poseidon_prover_layout()),
        ComputeType::PcsPoseidonPreprocess => fits(lines, pcs_poseidon_preprocess_prover_layout())
            && id_parses(lines[0]) && consts.supports(3),
        ComputeType::PcsShaPreprocess => fits(lines, sha_preprocess_prover_layout()) && id_parses(
            lines[0],
        ) && consts.supports(3),
        ComputeType::NonMember => fits(lines, token_revocation_prover_layout()) && id_parses(
            lines[7],
        ) && consts.supports(3),
        _ => true,
    }
}

/// What reading the verifier input of `compute` needs from the input file.
pub open spec fn verifier_lines_ok(
    compute: ComputeType,
    lines: Seq<Seq<char>>,
    consts: PoseidonConstants,
) -> bool {
    match compute {
        ComputeType::PcsSha => fits(lines, pcs_sha_verifier_layout()),
        ComputeType::PcsPoseidon => fits(lines, pcs_poseidon_verifier_layout()),
        ComputeType::PcsPoseidonPreprocess => fits(lines, pcs_preprocess_verifier_layout())
            && lines.len() >= 1 && id_parses(lines[0]) && consts.supports(3),
        ComputeType::PcsShaPreprocess => fits(lines, sha_preprocess_verifier_layout()) && lines.len()
            >= 1 && id_parses(lines[0]) && consts.supports(3),
        ComputeType::NonMember => fits(lines, token_revocation_verifier_layout()) && lines.len()
            >= 8 && id_parses(lines[7]) && consts.supports(3),
        _ => true,
    }
}

/// Whether the input file can be read for the prover of `compute`.
pub fn prover_lines_fit(compute: ComputeType, lines: &Vec<Vec<char>>, consts: &PoseidonConstants) -> (r: bool)
    ensures
        r == prover_lines_ok(compute, chars_view(lines@), *consts),
{
    match compute {
        ComputeType::PcsSha => lines_fit(lines, &pcs_sha_prover_layout_fields()),
        ComputeType::PcsPoseidon => lines_fit(lines, &pcs_poseidon_prover_layout_fields()),
        ComputeType::PcsPoseidonPreprocess => {
            lines_fit(lines, &pcs_poseidon_preprocess_prover_layout_fields()) && id_line_ok(lines, 0)
                && consts.supports_width(3)
        },
        ComputeType::PcsShaPreprocess => {
            lines_fit(lines, &sha_preprocess_prover_layout_fields()) && id_line_ok(lines, 0)
                && consts.supports_width(3)
        },
        ComputeType::NonMember => {
            lines_fit(lines, &token_revocation_prover_layout_fields()) && id_line_ok(lines, 7)
                && consts.supports_width(3)
        },
        _ => true,
    }
}

/// Whether the input file can be read for the verifier of `compute`.
pub fn verifier_lines_fit(compute: ComputeType, lines: &Vec<Vec<char>>, consts: &PoseidonConstants) -> (r: bool)
    ensures
        r == verifier_lines_ok(compute, chars_view(lines@), *consts),
{
    match compute {
        ComputeType::PcsSha => lines_fit(lines, &pcs_sha_verifier_layout_fields()),
        ComputeType::PcsPoseidon => lines_fit(lines, &pcs_poseidon_verifier_layout_fields()),
        ComputeType::PcsPoseidonPreprocess => {
            lines_fit(lines, &pcs_preprocess_verifier_layout_fields()) && id_line_ok(lines, 0)
                && consts.supports_width(3)
        },
        ComputeType::PcsShaPreprocess => {
            lines_fit(lines, &sha_preprocess_verifier_layout_fields()) && id_line_ok(lines, 0)
                && consts.supports_width(3)
        },
        ComputeType::NonMember => {
            lines_fit(lines, &token_revocation_verifier_layout_fields()) && id_line_ok(lines, 7)
                && consts.supports_width(3)
        },
        _ => true,
    }
}

/// Line `k` exists and holds an identity.
fn id_line_ok(lines: &Vec<Vec<char>>, k: usize) -> (r: bool)
    ensures
        r == (k < lines@.len() && id_parses(chars_view(lines@)[k as int])),
{
    k < lines.len() && id_line_parses(&lines[k])
}

/// The prover input of `compute` read from `lines`, with commitment
/// randomness `rand`.
pub open spec fn prover_input_map(
    compute: ComputeType,
    lines: Seq<Seq<char>>,
    rand: nat,
    consts: PoseidonConstants,
) -> Map<Seq<char>, FieldInput> {
    match compute {
        ComputeType::PcsSha => assemble(lines, pcs_sha_prover_layout()),
        ComputeType::PcsPoseidon => assemble(lines, pcs_poseidon_prover_layout()),
        ComputeType::PcsPoseidonPreprocess => with_commitment(
            assemble(lines, pcs_poseidon_preprocess_prover_layout()),
            lines,
            0,
            rand,
            consts,
        ),
        ComputeType::PcsShaPreprocess => with_commitment(
            assemble(lines, sha_preprocess_prover_layout()),
            lines,
            0,
            rand,
            consts,
        ),
        _ => with_commitment(assemble(lines, token_revocation_prover_layout()), lines, 7, rand, consts),
    }
}

/// The verifier input of `compute` read from `lines`, with commitment
/// randomness `rand`.
pub open spec fn verifier_input_map(
    compute: ComputeType,
    lines: Seq<Seq<char>>,
    rand: nat,
    consts: PoseidonConstants,
) -> Map<Seq<char>, FieldInput> {
    match compute {
        ComputeType::PcsSha => assemble(lines, pcs_sha_verifier_layout()),
        ComputeType::PcsPoseidon => assemble(lines, pcs_poseidon_verifier_layout()),
        ComputeType::PcsPoseidonPreprocess => with_commitment_only(
            assemble(lines, pcs_preprocess_verifier_layout()),
            lines,
            0,
            rand,
            consts,
        ),
        ComputeType::PcsShaPreprocess => with_commitment_only(
            assemble(lines, sha_preprocess_verifier_layout()),
            lines,
            0,
            rand,
            consts,
        ),
        _ => with_commitment_only(
            assemble(lines, token_revocation_verifier_layout()),
            lines,
            7,
            rand,
            consts,
        ),
    }
}

/// Prover input of `compute`, read from the lines of its input file.
pub fn create_prover_input(
    compute: ComputeType,
    lines: &Vec<Vec<char>>,
    pfcurve: &PfCurve,
    commit_rand: &BigNat,
    consts: &PoseidonConstants,
) -> (r: Result<InputMap, InputError>)
    requires
        prover_lines_ok(compute, chars_view(lines@), *consts),
    ensures
        r is Ok <==> produced_here(compute),
        r matches Ok(m) ==> m@ == prover_input_map(compute, chars_view(lines@), commit_rand@, *consts),
{
    match compute {
        ComputeType::PcsSha => Ok(prover_input_pcs_sha(lines)),
        ComputeType::PcsPoseidon => Ok(prover_input_pcs_poseidon(lines)),
        ComputeType::PcsPoseidonPreprocess => {
            proof {
                assert(pcs_poseidon_preprocess_prover_layout()[0].line == 0);
                assert(chars_view(lines@)[0] == lines@[0]@);
            }
            Ok(prover_input_pcs_poseidon_preprocess(lines, commit_rand, consts))
        },
        ComputeType::PcsShaPreprocess => {
            proof {
                assert(sha_preprocess_prover_layout()[0].line == 0);
                assert(chars_view(lines@)[0] == lines@[0]@);
            }
            Ok(prover_input_sha_preprocess(lines, commit_rand, consts))
        },
        ComputeType::NonMember => {
            proof {
                assert(token_revocation_prover_layout()[7].line == 7);
                assert(chars_view(lines@)[7] == lines@[7]@);
            }
            Ok(prover_input_token_revocation(lines, commit_rand, consts))
        },
        _ => Err(InputError::NotAvailable),
    }
}

/// Verifier input of `compute`, read from the lines of its input file.
pub fn create_verifier_input(
    compute: ComputeType,
    lines: &Vec<Vec<char>>,
    pfcurve: &PfCurve,
    commit_rand: &BigNat,
    consts: &PoseidonConstants,
) -> (r: Result<InputMap, InputError>)
    requires
        verifier_lines_ok(compute, chars_view(lines@), *consts),
    ensures
        r is Ok <==> produced_here(compute),
        r matches Ok(m) ==> m@ == verifier_input_map(compute, chars_view(lines@), commit_rand@, *consts),
{
    match compute {
        ComputeType::PcsSha => Ok(verifier_input_pcs_sha(lines)),
        ComputeType::PcsPoseidon => Ok(verifier_input_pcs_poseidon(lines)),
        ComputeType::PcsPoseidonPreprocess => {
            proof {
                assert(chars_view(lines@)[0] == lines@[0]@);
            }
            Ok(verifier_input_pcs_preprocess(lines, commit_rand, consts))
        },
        ComputeType::PcsShaPreprocess => {
            proof {
                assert(chars_view(lines@)[0] == lines@[0]@);
            }
            Ok(verifier_input_sha_preprocess(lines, commit_rand, consts))
        },
        ComputeType::NonMember => {
            proof {
                assert(chars_view(lines@)[7] == lines@[7]@);
            }
            Ok(verifier_input_token_revocation(lines, commit_rand, consts))
        },
        _ => Err(InputError::NotAvailable),
    }
}

// ---------------------------------------------------------------------------
// Scalar multiplication on the generator.
// ---------------------------------------------------------------------------

/// `(n_limbs, limbs_per_gp)` of the scalar-multiplication circuit for a limb
/// width; `None` for an unsupported limb width.
pub open spec fn scalmul_layout(limbwidth: usize) -> Option<(usize, usize)> {
    if limbwidth == 64 {
        Some((4, 2))
    } else if limbwidth == 32 {
        Some((8, 6))
    } else if limbwidth == 16 {
        Some((16, 14))
    } else {
        None
    }
}

/// The limb layout of the scalar-multiplication circuit: the number of limbs,
/// the limbs per group and the bits of the quotient (`n_limbs * limbwidth + 1`).
pub fn scalmul_parameters(limbwidth: usize) -> (r: Option<(usize, usize, usize)>)
    ensures
        match scalmul_layout(limbwidth) {
            Some((n, g)) => r == Some((n, g, (n * limbwidth + 1) as usize)),
            None => r is None,
        },
{
    let (n_limbs, limbs_per_gp): (usize, usize) = if limbwidth == 64 {
        (4, 2)
    } else if limbwidth == 32 {
        (8, 6)
    } else if limbwidth == 16 {
        (16, 14)
    } else {
        return None;
    };
    Some((n_limbs, limbs_per_gp, n_limbs * limbwidth + 1))
}

/// The scalar of the scalar-multiplication input, big-endian: the group
/// order minus two.
pub open spec fn scalmul_scalar_bytes() -> Seq<u8> {
    seq![
        0xffu8, 0xff, 0xff, 0xff, 0x00, 0x00, 0x00, 0x00, 0xff, 0xff, 0xff, 0xff, 0xff, 0xff, 0xff,
        0xff, 0xbc, 0xe6, 0xfa, 0xad, 0xa7, 0x17, 0x9e, 0x84, 0xf3, 0xb9, 0xca, 0xc2, 0xfc, 0x63,
        0x25, 0x4f,
    ]
}

/// The openings of the two commitments of the scalar-multiplication input.
pub open spec fn scalmul_openings() -> (nat, nat) {
    (52323142543543534351nat, 3243234546364232323222nat)
}

/// The affine x coordinate of an encoded point; 0 for the identity.
pub open spec fn affine_x(p: Seq<u8>) -> nat {
    if p == identity_bytes() {
        0
    } else {
        be_val(p256_uncompressed(p).subrange(1, 33))
    }
}

/// The affine y coordinate of an encoded point; 0 for the identity.
pub open spec fn affine_y(p: Seq<u8>) -> nat {
    if p == identity_bytes() {
        0
    } else {
        be_val(p256_uncompressed(p).subrange(33, 65))
    }
}

/// The commitments of the scalar-multiplication input: to the scalar, cut
/// for windows of `window_size` bits, and to the scalar times the generator,
/// cut into limbs of `limbwidth` bits.
pub open spec fn scalmul_commitments(
    limbwidth: usize,
    window_size: usize,
    consts: PoseidonConstants,
) -> Seq<int> {
    let layout = scalmul_layout(limbwidth)->0;
    let n_limbs = layout.0;
    let n_chunks = (256 + window_size - 1) / (window_size as int);
    let q = p256_scalar_mul(generator_bytes(), scalmul_scalar_bytes());
    seq![
        poseidon_spec(
            scalar_commit_inputs(
                be_val(scalmul_scalar_bytes()),
                scalmul_openings().0,
                scalar_shift(window_size as int, n_chunks) as nat,
            ),
            consts,
        ),
        poseidon_spec(
            point_commit_inputs(
                affine_x(q),
                affine_y(q),
                scalmul_openings().1,
                limbwidth as nat,
                (limbwidth * (n_limbs - 1)) as nat,
            ),
            consts,
        ),
    ]
}

/// The window count ceil(256 / w) splits the 256-bit scalar at bit `256 - w`,
/// whether `w` divides 256 or not.
proof fn lemma_window_split(w: int)
    requires
        1 <= w <= 256,
    ensures
        scalar_shift(w, (256 + w - 1) / w) == 256 - w,
{
    let q: int = 256int / w;
    let r: int = 256int % w;
    lemma_fundamental_div_mod(256, w);
    if r == 0 {
        lemma_fundamental_div_mod_converse(256 + w - 1, w, q, w - 1);
        assert(w * (q - 1) == w * q - w) by (nonlinear_arith);
    } else {
        assert((q + 1) * w == w * q + w) by (nonlinear_arith);
        lemma_fundamental_div_mod_converse(256 + w - 1, w, q + 1, r - 1);
        assert(w * (q + 1 - 2) == w * q - w) by (nonlinear_arith);
    }
}

/// The commitment to the scalar in the scalar-multiplication input splits
/// the scalar `s` (the group order minus two) at bit `256 - window_size`,
/// for every window size from 1 to 256: it is the Poseidon hash of the
/// opening, `s mod 2^(256 - window_size)` and `s >> (256 - window_size)`.
pub proof fn lemma_scalmul_scalar_split(limbwidth: usize, window_size: usize, consts: PoseidonConstants)
    requires
        1 <= window_size <= 256,
    ensures
        scalmul_commitments(limbwidth, window_size, consts)[0] == poseidon_spec(
            seq![
                52323142543543534351int,
                (be_val(scalmul_scalar_bytes()) % pow2((256 - window_size) as nat)) as int,
                (be_val(scalmul_scalar_bytes()) / pow2((256 - window_size) as nat)) as int,
            ],
            consts,
        ),
{
    lemma_window_split(window_size as int);
    let s = be_val(scalmul_scalar_bytes());
    let sh = scalar_shift(
        window_size as int,
        (256 + window_size - 1) / (window_size as int),
    ) as nat;
    assert(sh == (256 - window_size) as nat);
    assert(scalar_commit_inputs(s, scalmul_openings().0, sh) =~= seq![
        52323142543543534351int,
        (s % pow2((256 - window_size) as nat)) as int,
        (s / pow2((256 - window_size) as nat)) as int,
    ]);
}

fn scalmul_scalar() -> (r: P256Scalar)
    ensures
        r.wf(),
        r.bytes@ == scalmul_scalar_bytes(),
{
    let bytes: Vec<u8> = vec![
        0xff, 0xff, 0xff, 0xff, 0x00, 0x00, 0x00, 0x00, 0xff, 0xff, 0xff, 0xff, 0xff, 0xff, 0xff,
        0xff, 0xbc, 0xe6, 0xfa, 0xad, 0xa7, 0x17, 0x9e, 0x84, 0xf3, 0xb9, 0xca, 0xc2, 0xfc, 0x63,
        0x25, 0x4f,
    ];
    proof {
        assert(bytes@ =~= scalmul_scalar_bytes());
        reveal_with_fuel(be_val, 33);
        assert(be_val(scalmul_scalar_bytes()) == p256_order() - 2);
    }
    P256Scalar { bytes }
}

/// Input of the scalar-multiplication circuit for a limb width and a window
/// size: an empty map for an unsupported limb width; for the verifier the
/// two commitments and `return` set; the prover's input (the limbs of the
/// scalar and the intermediate points) is not produced here.
pub fn input_for_verifyscalmul(
    party: Party,
    limbwidth: usize,
    window_size: usize,
    consts: &PoseidonConstants,
) -> (r: Result<InputMap, InputError>)
    requires
        scalmul_layout(limbwidth) is Some && party is Verifier ==> {
            &&& 1 <= window_size <= 256
            &&& consts.supports(4)
            &&& consts.supports(5)
        },
    ensures
        scalmul_layout(limbwidth) is None ==> (r matches Ok(m) && m@ == Map::<
            Seq<char>,
            FieldInput,
        >::empty()),
        scalmul_layout(limbwidth) is Some && party is Prover ==> r == Err::<InputMap, InputError>(
            InputError::NotAvailable,
        ),
        scalmul_layout(limbwidth) is Some && party is Verifier ==> (r matches Ok(m) && m@
            == insert_numbers(
            Map::empty(),
            "commitments"@,
            scalmul_commitments(limbwidth, window_size, *consts),
        ).insert("return"@, FieldInput::Bool(true))),
{
    let n_limbs = match scalmul_parameters(limbwidth) {
        None => {
            return Ok(InputMap::new());
        },
        Some((n, _, _)) => n,
    };
    match party {
        Party::Prover => {
            return Err(InputError::NotAvailable);
        },
        Party::Verifier => {},
    }
    let scalar = scalmul_scalar();
    let q = ECPoint::generator().mul(&scalar);
    let point = q.affine();
    let o0 = BigNat::from_u64(5232314254).mul(&BigNat::from_u64(10000000000)).add(
        &BigNat::from_u64(3543534351),
    );
    let o1 = BigNat::from_u64(324323454636).mul(&BigNat::from_u64(10000000000)).add(
        &BigNat::from_u64(4232323222),
    );
    let n_chunks: usize = (256 + window_size - 1) / window_size;
    proof {
        assert(n_chunks >= 1 && window_size * (n_chunks - 1) <= 256) by (nonlinear_arith)
            requires
                1 <= window_size <= 256,
                n_chunks == (256 + window_size - 1) / (window_size as int),
        ;
        if 256usize % window_size != 0 {
            assert(n_chunks >= 2 && window_size * (n_chunks - 2) <= 256) by (nonlinear_arith)
                requires
                    1 <= window_size <= 256,
                    256usize % window_size != 0,
                    n_chunks == (256 + window_size - 1) / (window_size as int),
            ;
            assert(256usize % window_size < window_size);
        }
    }
    let c0 = commit_to_scalar(scalar.value(), o0, window_size, n_chunks, consts);
    let c1 = commit_to_point(&point, o1, limbwidth, n_limbs, consts);
    let mut map = InputMap::new();
    let commitments = vec![c0, c1];
    Poseidon::alloc_commitments(&commitments, "", &mut map);
    map.insert(str_chars("return"), InputValue::Bool(true));
    proof {
        reveal_strlit("");
        assert(crate::commitment::name_prefix(""@) + "commitments"@ =~= "commitments"@);
        assert(crate::poseidon::nats_val(commitments@) =~= scalmul_commitments(
            limbwidth,
            window_size,
            *consts,
        ));
    }
    Ok(map)
}

// ---------------------------------------------------------------------------
// What the verifier reads, the prover reads too.
// ---------------------------------------------------------------------------

/// The input names of the layouts, revealed; the pairs of equal length that
/// the proofs below compare differ in their first character.
proof fn lemma_input_names()
    ensures
        "H"@ != "r"@,
        "blinded"@ != "blinder"@,
        "old_token"@ != "left_leaf"@,
        "root"@ != "ID_A"@,
        "root"@ != "salt"@,
        "root"@ != "ID_B"@,
        "H"@.len() == 1,
        "r"@.len() == 1,
        "root"@.len() == 4,
        "ID_A"@.len() == 4,
        "salt"@.len() == 4,
        "ID_B"@.len() == 4,
        "EM"@.len() == 2,
        "N_H"@.len() == 3,
        "H_r"@.len() == 3,
        "N_ID_A"@.len() == 6,
        "blinded"@.len() == 7,
        "blinder"@.len() == 7,
        "sub_root"@.len() == 8,
        "old_token"@.len() == 9,
        "left_leaf"@.len() == 9,
        "right_leaf"@.len() == 10,
        "N_old_token"@.len() == 11,
        "direction_left"@.len() == 14,
        "auth_path_left"@.len() == 14,
        "direction_root"@.len() == 14,
        "auth_path_root"@.len() == 14,
        "direction_right"@.len() == 15,
        "auth_path_right"@.len() == 15,
        "commit_rand"@.len() == 11,
        "commit_ID_A"@.len() == 11,
        "commit_rand"@ != "commit_ID_A"@,
        dotless("H"@) && dotless("r"@) && dotless("root"@) && dotless("ID_A"@) && dotless("salt"@)
            && dotless("ID_B"@) && dotless("EM"@) && dotless("N_H"@) && dotless("H_r"@) && dotless(
            "N_ID_A"@,
        ) && dotless("blinded"@) && dotless("blinder"@) && dotless("sub_root"@) && dotless(
            "old_token"@,
        ) && dotless("left_leaf"@) && dotless("right_leaf"@) && dotless("N_old_token"@)
            && dotless("direction_left"@) && dotless("auth_path_left"@) && dotless(
            "direction_root"@,
        ) && dotless("auth_path_root"@) && dotless("direction_right"@) && dotless(
            "auth_path_right"@,
        ) && dotless("commit_rand"@) && dotless("commit_ID_A"@),
{
    reveal_strlit("H");
    reveal_strlit("r");
    reveal_strlit("root");
    reveal_strlit("ID_A");
    reveal_strlit("salt");
    reveal_strlit("ID_B");
    reveal_strlit("EM");
    reveal_strlit("N_H");
    reveal_strlit("H_r");
    reveal_strlit("N_ID_A");
    reveal_strlit("blinded");
    reveal_strlit("blinder");
    reveal_strlit("sub_root");
    reveal_strlit("old_token");
    reveal_strlit("left_leaf");
    reveal_strlit("right_leaf");
    reveal_strlit("N_old_token");
    reveal_strlit("direction_left");
    reveal_strlit("auth_path_left");
    reveal_strlit("direction_root");
    reveal_strlit("auth_path_root");
    reveal_strlit("direction_right");
    reveal_strlit("auth_path_right");
    reveal_strlit("commit_rand");
    reveal_strlit("commit_ID_A");
    assert("H"@[0] != "r"@[0]);
    assert("blinded"@[6] != "blinder"@[6]);
    assert("old_token"@[0] != "left_leaf"@[0]);
    assert("root"@[0] != "ID_A"@[0]);
    assert("root"@[0] != "salt"@[0]);
    assert("root"@[0] != "ID_B"@[0]);
    assert("commit_rand"@[7] != "commit_ID_A"@[7]);
}

proof fn lemma_sha_layouts()
    ensures
        dotless_names(pcs_sha_verifier_layout()),
        dotless_names(pcs_sha_prover_layout()),
        forall|i: int|
            0 <= i < pcs_sha_verifier_layout().len() ==> name_count(
                pcs_sha_verifier_layout(),
                #[trigger] pcs_sha_verifier_layout()[i].name@,
            ) == 1 && name_count(
                pcs_sha_prover_layout(),
                pcs_sha_verifier_layout()[i].name@,
            ) == 1 && field_named(
                pcs_sha_prover_layout(),
                pcs_sha_verifier_layout()[i].name@,
            ) == pcs_sha_verifier_layout()[i],
{
    lemma_input_names();
    let v = pcs_sha_verifier_layout();
    let p = pcs_sha_prover_layout();
    assert(dotless_names(p));
    assert(dotless_names(v));
    reveal_with_fuel(name_count_from, 25);
    lemma_name_count_from(p, "blinded"@);
    lemma_name_count_from(v, "blinded"@);
    assert(name_count_from(p, "blinded"@, 0) == 1);
    assert(name_count_from(v, "blinded"@, 0) == 1);
    lemma_field_named(p, "blinded"@, 6);
    lemma_name_count_from(p, "H"@);
    lemma_name_count_from(v, "H"@);
    assert(name_count_from(p, "H"@, 0) == 1);
    assert(name_count_from(v, "H"@, 0) == 1);
    lemma_field_named(p, "H"@, 10);
    lemma_name_count_from(p, "old_token"@);
    lemma_name_count_from(v, "old_token"@);
    assert(name_count_from(p, "old_token"@, 0) == 1);
    assert(name_count_from(v, "old_token"@, 0) == 1);
    lemma_field_named(p, "old_token"@, 12);
    lemma_name_count_from(p, "root"@);
    lemma_name_count_from(v, "root"@);
    assert(name_count_from(p, "root"@, 0) == 1);
    assert(name_count_from(v, "root"@, 0) == 1);
    lemma_field_named(p, "root"@, 23);
    assert forall|i: int| 0 <= i < v.len() implies name_count(v, #[trigger] v[i].name@) == 1
        && name_count(p, v[i].name@) == 1 && field_named(p, v[i].name@) == v[i] by {
        if i == 0 {
        } else if i == 1 {
        } else if i == 2 {
        } else if i == 3 {
        }
    }
}

proof fn lemma_poseidon_layouts()
    ensures
        dotless_names(pcs_poseidon_verifier_layout()),
        dotless_names(pcs_poseidon_prover_layout()),
        forall|i: int|
            0 <= i < pcs_poseidon_verifier_layout().len() ==> name_count(
                pcs_poseidon_verifier_layout(),
                #[trigger] pcs_poseidon_verifier_layout()[i].name@,
            ) == 1 && name_count(
                pcs_poseidon_prover_layout(),
                pcs_poseidon_verifier_layout()[i].name@,
            ) == 1 && field_named(
                pcs_poseidon_prover_layout(),
                pcs_poseidon_verifier_layout()[i].name@,
            ) == pcs_poseidon_verifier_layout()[i],
{
    lemma_input_names();
    let v = pcs_poseidon_verifier_layout();
    let p = pcs_poseidon_prover_layout();
    assert(dotless_names(p));
    assert(dotless_names(v));
    reveal_with_fuel(name_count_from, 25);
    lemma_name_count_from(p, "blinded"@);
    lemma_name_count_from(v, "blinded"@);
    assert(name_count_from(p, "blinded"@, 0) == 1);
    assert(name_count_from(v, "blinded"@, 0) == 1);
    lemma_field_named(p, "blinded"@, 6);
    lemma_name_count_from(p, "H"@);
    lemma_name_count_from(v, "H"@);
    assert(name_count_from(p, "H"@, 0) == 1);
    assert(name_count_from(v, "H"@, 0) == 1);
    lemma_field_named(p, "H"@, 10);
    lemma_name_count_from(p, "old_token"@);
    lemma_name_count_from(v, "old_token"@);
    assert(name_count_from(p, "old_token"@, 0) == 1);
    assert(name_count_from(v, "old_token"@, 0) == 1);
    lemma_field_named(p, "old_token"@, 12);
    lemma_name_count_from(p, "root"@);
    lemma_name_count_from(v, "root"@);
    assert(name_count_from(p, "root"@, 0) == 1);
    assert(name_count_from(v, "root"@, 0) == 1);
    lemma_field_named(p, "root"@, 23);
    assert forall|i: int| 0 <= i < v.len() implies name_count(v, #[trigger] v[i].name@) == 1
        && name_count(p, v[i].name@) == 1 && field_named(p, v[i].name@) == v[i] by {
        if i == 0 {
        } else if i == 1 {
        } else if i == 2 {
        } else if i == 3 {
        }
    }
}

proof fn lemma_poseidon_preprocess_layouts()
    ensures
        dotless_names(pcs_preprocess_verifier_layout()),
        dotless_names(pcs_poseidon_preprocess_prover_layout()),
        forall|i: int|
            0 <= i < pcs_preprocess_verifier_layout().len() ==> name_count(
                pcs_preprocess_verifier_layout(),
                #[trigger] pcs_preprocess_verifier_layout()[i].name@,
            ) == 1 && name_count(
                pcs_poseidon_preprocess_prover_layout(),
                pcs_preprocess_verifier_layout()[i].name@,
            ) == 1 && field_named(
                pcs_poseidon_preprocess_prover_layout(),
                pcs_preprocess_verifier_layout()[i].name@,
            ) == pcs_preprocess_verifier_layout()[i],
{
    lemma_input_names();
    let v = pcs_preprocess_verifier_layout();
    let p = pcs_poseidon_preprocess_prover_layout();
    assert(dotless_names(p));
    assert(dotless_names(v));
    reveal_with_fuel(name_count_from, 25);
    lemma_name_count_from(p, "blinded"@);
    lemma_name_count_from(v, "blinded"@);
    assert(name_count_from(p, "blinded"@, 0) == 1);
    assert(name_count_from(v, "blinded"@, 0) == 1);
    lemma_field_named(p, "blinded"@, 6);
    lemma_name_count_from(p, "H"@);
    lemma_name_count_from(v, "H"@);
    assert(name_count_from(p, "H"@, 0) == 1);
    assert(name_count_from(v, "H"@, 0) == 1);
    lemma_field_named(p, "H"@, 10);
    lemma_name_count_from(p, "old_token"@);
    lemma_name_count_from(v, "old_token"@);
    assert(name_count_from(p, "old_token"@, 0) == 1);
    assert(name_count_from(v, "old_token"@, 0) == 1);
    lemma_field_named(p, "old_token"@, 12);
    assert forall|i: int| 0 <= i < v.len() implies name_count(v, #[trigger] v[i].name@) == 1
        && name_count(p, v[i].name@) == 1 && field_named(p, v[i].name@) == v[i] by {
        if i == 0 {
        } else if i == 1 {
        } else if i == 2 {
        }
    }
}

proof fn lemma_sha_preprocess_layouts()
    ensures
        dotless_names(sha_preprocess_verifier_layout()),
        dotless_names(sha_preprocess_prover_layout()),
        forall|i: int|
            0 <= i < sha_preprocess_verifier_layout().len() ==> name_count(
                sha_preprocess_verifier_layout(),
                #[trigger] sha_preprocess_verifier_layout()[i].name@,
            ) == 1 && name_count(
                sha_preprocess_prover_layout(),
                sha_preprocess_verifier_layout()[i].name@,
            ) == 1 && field_named(
                sha_preprocess_prover_layout(),
                sha_preprocess_verifier_layout()[i].name@,
            ) == sha_preprocess_verifier_layout()[i],
{
    lemma_input_names();
    let v = sha_preprocess_verifier_layout();
    let p = sha_preprocess_prover_layout();
    assert(dotless_names(p));
    assert(dotless_names(v));
    reveal_with_fuel(name_count_from, 25);
    lemma_name_count_from(p, "blinded"@);
    lemma_name_count_from(v, "blinded"@);
    assert(name_count_from(p, "blinded"@, 0) == 1);
    assert(name_count_from(v, "blinded"@, 0) == 1);
    lemma_field_named(p, "blinded"@, 5);
    lemma_name_count_from(p, "H"@);
    lemma_name_count_from(v, "H"@);
    assert(name_count_from(p, "H"@, 0) == 1);
    assert(name_count_from(v, "H"@, 0) == 1);
    lemma_field_named(p, "H"@, 9);
    lemma_name_count_from(p, "old_token"@);
    lemma_name_count_from(v, "old_token"@);
    assert(name_count_from(p, "old_token"@, 0) == 1);
    assert(name_count_from(v, "old_token"@, 0) == 1);
    lemma_field_named(p, "old_token"@, 11);
    assert forall|i: int| 0 <= i < v.len() implies name_count(v, #[trigger] v[i].name@) == 1
        && name_count(p, v[i].name@) == 1 && field_named(p, v[i].name@) == v[i] by {
        if i == 0 {
        } else if i == 1 {
        } else if i == 2 {
        }
    }
}

proof fn lemma_revocation_layouts()
    ensures
        dotless_names(token_revocation_verifier_layout()),
        dotless_names(token_revocation_prover_layout()),
        forall|i: int|
            0 <= i < token_revocation_verifier_layout().len() ==> name_count(
                token_revocation_verifier_layout(),
                #[trigger] token_revocation_verifier_layout()[i].name@,
            ) == 1 && name_count(
                token_revocation_prover_layout(),
                token_revocation_verifier_layout()[i].name@,
            ) == 1 && field_named(
                token_revocation_prover_layout(),
                token_revocation_verifier_layout()[i].name@,
            ) == token_revocation_verifier_layout()[i],
{
    lemma_input_names();
    let v = token_revocation_verifier_layout();
    let p = token_revocation_prover_layout();
    assert(dotless_names(p));
    assert(dotless_names(v));
    lemma_name_count_from(p, "root"@);
    lemma_name_count_from(v, "root"@);
    reveal_with_fuel(name_count_from, 12);
    assert(name_count_from(p, "root"@, 0) == 1);
    assert(name_count_from(v, "root"@, 0) == 1);
    lemma_field_named(p, "root"@, 10);
}

/// What the verifier of a circuit is given, the prover of that circuit is
/// given too, with the same value: for the same lines of the input file and
/// the same commitment randomness, every input of the verifier's map is an
/// input of the prover's map with the same value.
pub proof fn lemma_verifier_input_within_prover_input(
    compute: ComputeType,
    lines: Seq<Seq<char>>,
    rand: nat,
    consts: PoseidonConstants,
)
    requires
        produced_here(compute),
    ensures
        forall|k: Seq<char>|
            #[trigger] verifier_input_map(compute, lines, rand, consts).contains_key(k)
                ==> prover_input_map(compute, lines, rand, consts).contains_key(k)
                && prover_input_map(compute, lines, rand, consts)[k] == verifier_input_map(
                compute,
                lines,
                rand,
                consts,
            )[k],
{
    lemma_input_names();
    match compute {
        ComputeType::PcsSha => {
            lemma_sha_layouts();
            lemma_layout_within(lines, pcs_sha_verifier_layout(), pcs_sha_prover_layout());
        },
        ComputeType::PcsPoseidon => {
            lemma_poseidon_layouts();
            lemma_layout_within(
                lines,
                pcs_poseidon_verifier_layout(),
                pcs_poseidon_prover_layout(),
            );
        },
        ComputeType::PcsPoseidonPreprocess => {
            lemma_poseidon_preprocess_layouts();
            let v = pcs_preprocess_verifier_layout();
            lemma_layout_within(lines, v, pcs_poseidon_preprocess_prover_layout());
            assert forall|i: int| 0 <= i < v.len() implies #[trigger] v[i].name@ != "commit_rand"@ by {
                if i == 0 {
                } else if i == 1 {
                } else {
                }
            }
            lemma_dotless_key_unassigned(lines, v, "commit_rand"@);
        },
        ComputeType::PcsShaPreprocess => {
            lemma_sha_preprocess_layouts();
            let v = sha_preprocess_verifier_layout();
            lemma_layout_within(lines, v, sha_preprocess_prover_layout());
            assert forall|i: int| 0 <= i < v.len() implies #[trigger] v[i].name@ != "commit_rand"@ by {
                if i == 0 {
                } else if i == 1 {
                } else {
                }
            }
            lemma_dotless_key_unassigned(lines, v, "commit_rand"@);
        },
        _ => {
            lemma_revocation_layouts();
            let v = token_revocation_verifier_layout();
            lemma_layout_within(lines, v, token_revocation_prover_layout());
            assert forall|i: int| 0 <= i < v.len() implies #[trigger] v[i].name@ != "commit_rand"@ by {
            }
            lemma_dotless_key_unassigned(lines, v, "commit_rand"@);
        },
    }
}


/// The fields that the verifier of `compute` reads from the input file.
pub open spec fn verifier_layout(compute: ComputeType) -> Seq<Field> {
    match compute {
        ComputeType::PcsSha => pcs_sha_verifier_layout(),
        ComputeType::PcsPoseidon => pcs_poseidon_verifier_layout(),
        ComputeType::PcsPoseidonPreprocess => pcs_preprocess_verifier_layout(),
        ComputeType::PcsShaPreprocess => sha_preprocess_verifier_layout(),
        _ => token_revocation_verifier_layout(),
    }
}

/// Whether the circuit of `compute` takes a commitment to an identity.
pub open spec fn commits_identity(compute: ComputeType) -> bool {
    !(compute is PcsSha || compute is PcsPoseidon)
}

/// Whether input `k` of the circuit of `compute` is public: the commitment
/// to the identity, or an input of a field that the verifier reads.
pub open spec fn public_input(compute: ComputeType, k: Seq<char>) -> bool {
    ||| commits_identity(compute) && k == "commit_ID_A"@
    ||| owned_in(verifier_layout(compute), k)
}

/// `k` is the input of one of the fields named `a`, `b`, `c`: the name
/// itself or one of its items `name.i`.
pub open spec fn owned_by_one_of(a: Seq<char>, b: Seq<char>, c: Seq<char>, k: Seq<char>) -> bool {
    owned_by(a, k) || owned_by(b, k) || owned_by(c, k)
}

/// The public inputs of each circuit, by name: for the two token
/// derivations, the inputs of `blinded`, `H`, `old_token` and `root`; for
/// the two preprocessing circuits, those of `blinded`, `H` and `old_token`
/// and the commitment `commit_ID_A`; for non-membership, `root` and
/// `commit_ID_A`.
pub proof fn lemma_public_inputs_by_name(k: Seq<char>)
    ensures
        public_input(ComputeType::PcsSha, k) <==> owned_by_one_of("blinded"@, "H"@, "old_token"@, k)
            || owned_by("root"@, k),
        public_input(ComputeType::PcsPoseidon, k) <==> owned_by_one_of(
            "blinded"@,
            "H"@,
            "old_token"@,
            k,
        ) || owned_by("root"@, k),
        public_input(ComputeType::PcsPoseidonPreprocess, k) <==> k == "commit_ID_A"@
            || owned_by_one_of("blinded"@, "H"@, "old_token"@, k),
        public_input(ComputeType::PcsShaPreprocess, k) <==> k == "commit_ID_A"@ || owned_by_one_of(
            "blinded"@,
            "H"@,
            "old_token"@,
            k,
        ),
        public_input(ComputeType::NonMember, k) <==> k == "commit_ID_A"@ || owned_by("root"@, k),
{
    let v1 = pcs_sha_verifier_layout();
    let v2 = pcs_poseidon_verifier_layout();
    let v3 = pcs_preprocess_verifier_layout();
    let v4 = sha_preprocess_verifier_layout();
    let v5 = token_revocation_verifier_layout();
    assert(v1[0].name@ == "blinded"@ && v1[1].name@ == "H"@ && v1[2].name@ == "old_token"@
        && v1[3].name@ == "root"@);
    assert(v2[0].name@ == "blinded"@ && v2[1].name@ == "H"@ && v2[2].name@ == "old_token"@
        && v2[3].name@ == "root"@);
    assert(v3[0].name@ == "blinded"@ && v3[1].name@ == "H"@ && v3[2].name@ == "old_token"@);
    assert(v4[0].name@ == "blinded"@ && v4[1].name@ == "H"@ && v4[2].name@ == "old_token"@);
    assert(v5[0].name@ == "root"@);
    if owned_in(v1, k) {
        let i = choose|i: int| 0 <= i < v1.len() && owned_by(#[trigger] v1[i].name@, k);
        assert(i == 0 || i == 1 || i == 2 || i == 3);
    }
    if owned_in(v2, k) {
        let i = choose|i: int| 0 <= i < v2.len() && owned_by(#[trigger] v2[i].name@, k);
        assert(i == 0 || i == 1 || i == 2 || i == 3);
    }
    if owned_in(v3, k) {
        let i = choose|i: int| 0 <= i < v3.len() && owned_by(#[trigger] v3[i].name@, k);
        assert(i == 0 || i == 1 || i == 2);
    }
    if owned_in(v4, k) {
        let i = choose|i: int| 0 <= i < v4.len() && owned_by(#[trigger] v4[i].name@, k);
        assert(i == 0 || i == 1 || i == 2);
    }
    if owned_in(v5, k) {
        let i = choose|i: int| 0 <= i < v5.len() && owned_by(#[trigger] v5[i].name@, k);
        assert(i == 0);
    }
    if owned_by("blinded"@, k) {
        assert(owned_by(v1[0].name@, k) && owned_by(v2[0].name@, k) && owned_by(v3[0].name@, k)
            && owned_by(v4[0].name@, k));
    }
    if owned_by("H"@, k) {
        assert(owned_by(v1[1].name@, k) && owned_by(v2[1].name@, k) && owned_by(v3[1].name@, k)
            && owned_by(v4[1].name@, k));
    }
    if owned_by("old_token"@, k) {
        assert(owned_by(v1[2].name@, k) && owned_by(v2[2].name@, k) && owned_by(v3[2].name@, k)
            && owned_by(v4[2].name@, k));
    }
    if owned_by("root"@, k) {
        assert(owned_by(v1[3].name@, k) && owned_by(v2[3].name@, k) && owned_by(v5[0].name@, k));
    }
}

/// The prover's map read with layout `p`, with the commitment inputs where
/// `commit` holds.
spec fn prover_part(
    lines: Seq<Seq<char>>,
    p: Seq<Field>,
    commit: bool,
    id_line: int,
    rand: nat,
    consts: PoseidonConstants,
) -> Map<Seq<char>, FieldInput> {
    if commit {
        with_commitment(assemble(lines, p), lines, id_line, rand, consts)
    } else {
        assemble(lines, p)
    }
}

/// The verifier's map read with layout `v`, with the commitment where
/// `commit` holds.
spec fn verifier_part(
    lines: Seq<Seq<char>>,
    v: Seq<Field>,
    commit: bool,
    id_line: int,
    rand: nat,
    consts: PoseidonConstants,
) -> Map<Seq<char>, FieldInput> {
    if commit {
        with_commitment_only(assemble(lines, v), lines, id_line, rand, consts)
    } else {
        assemble(lines, v)
    }
}

/// At each key, the verifier's map is the prover's map restricted to the
/// commitment and the keys that the verifier's fields own.
proof fn lemma_public_part_at(
    lines: Seq<Seq<char>>,
    v: Seq<Field>,
    p: Seq<Field>,
    commit: bool,
    id_line: int,
    rand: nat,
    consts: PoseidonConstants,
    k: Seq<char>,
)
    requires
        dotless_names(v),
        dotless_names(p),
        forall|i: int|
            0 <= i < v.len() ==> name_count(v, #[trigger] v[i].name@) == 1 && name_count(
                p,
                v[i].name@,
            ) == 1 && field_named(p, v[i].name@) == v[i],
        forall|i: int| 0 <= i < v.len() ==> #[trigger] v[i].name@ != "commit_rand"@,
        dotless("commit_rand"@),
        "commit_rand"@ != "commit_ID_A"@,
    ensures
        verifier_part(lines, v, commit, id_line, rand, consts).contains_key(k) == (prover_part(
            lines,
            p,
            commit,
            id_line,
            rand,
            consts,
        ).contains_key(k) && ((commit && k == "commit_ID_A"@) || owned_in(v, k))),
        verifier_part(lines, v, commit, id_line, rand, consts).contains_key(k) ==> verifier_part(
            lines,
            v,
            commit,
            id_line,
            rand,
            consts,
        )[k] == prover_part(lines, p, commit, id_line, rand, consts)[k],
{
    if commit && k == "commit_ID_A"@ {
    } else if commit && k == "commit_rand"@ {
        lemma_dotless_key_unassigned(lines, v, k);
    } else if owned_in(v, k) {
        lemma_layout_agree(lines, v, p, k);
    } else {
        lemma_assemble_unowned(lines, v, k);
    }
}

/// The verifier of a circuit is given exactly the public part of what its
/// prover is given: for the same lines of the input file and the same
/// commitment randomness, the verifier's map is the prover's map restricted
/// to the public inputs (the commitment to the identity, where the circuit
/// takes one, and the inputs of the fields that the verifier reads).
pub proof fn lemma_verifier_input_is_public_part(
    compute: ComputeType,
    lines: Seq<Seq<char>>,
    rand: nat,
    consts: PoseidonConstants,
)
    requires
        produced_here(compute),
    ensures
        verifier_input_map(compute, lines, rand, consts) == prover_input_map(
            compute,
            lines,
            rand,
            consts,
        ).restrict(Set::new(|k: Seq<char>| public_input(compute, k))),
{
    lemma_input_names();
    let v = verifier_layout(compute);
    let commit = commits_identity(compute);
    let (p, id_line): (Seq<Field>, int) = match compute {
        ComputeType::PcsSha => (pcs_sha_prover_layout(), 0),
        ComputeType::PcsPoseidon => (pcs_poseidon_prover_layout(), 0),
        ComputeType::PcsPoseidonPreprocess => (pcs_poseidon_preprocess_prover_layout(), 0),
        ComputeType::PcsShaPreprocess => (sha_preprocess_prover_layout(), 0),
        _ => (token_revocation_prover_layout(), 7),
    };
    match compute {
        ComputeType::PcsSha => {
            lemma_sha_layouts();
        },
        ComputeType::PcsPoseidon => {
            lemma_poseidon_layouts();
        },
        ComputeType::PcsPoseidonPreprocess => {
            lemma_poseidon_preprocess_layouts();
        },
        ComputeType::PcsShaPreprocess => {
            lemma_sha_preprocess_layouts();
        },
        _ => {
            lemma_revocation_layouts();
        },
    }
    assert forall|i: int| 0 <= i < v.len() implies #[trigger] v[i].name@ != "commit_rand"@ by {
        assert(v[i].name@.len() != 11 || v[i].name@ == "commit_ID_A"@ || v[i].name@[0] != 'c');
    }
    assert(verifier_input_map(compute, lines, rand, consts) == verifier_part(
        lines,
        v,
        commit,
        id_line,
        rand,
        consts,
    ));
    assert(prover_input_map(compute, lines, rand, consts) == prover_part(
        lines,
        p,
        commit,
        id_line,
        rand,
        consts,
    ));
    let vm = verifier_part(lines, v, commit, id_line, rand, consts);
    let pm = prover_part(lines, p, commit, id_line, rand, consts);
    let pub_keys = Set::new(|k: Seq<char>| public_input(compute, k));
    assert forall|k: Seq<char>| #[trigger] vm.contains_key(k) == pm.restrict(pub_keys).contains_key(k)
        && (vm.contains_key(k) ==> vm[k] == pm.restrict(pub_keys)[k]) by {
        lemma_public_part_at(lines, v, p, commit, id_line, rand, consts, k);
    }
    assert(vm =~= pm.restrict(pub_keys));
}

/// How many leading lines of the input file the circuit of `compute` reads.
pub open spec fn lines_read(compute: ComputeType) -> int {
    match compute {
        ComputeType::PcsSha => 24,
        ComputeType::PcsPoseidon => 24,
        ComputeType::PcsPoseidonPreprocess => 13,
        ComputeType::PcsShaPreprocess => 12,
        _ => 11,
    }
}

/// Every field of `layout` names a line before line `e`.
spec fn lines_before(layout: Seq<Field>, e: int) -> bool {
    forall|i: int| 0 <= i < layout.len() ==> (#[trigger] layout[i]).line < e
}

proof fn lemma_assemble_leading(a: Seq<Seq<char>>, b: Seq<Seq<char>>, layout: Seq<Field>, e: int)
    requires
        lines_before(layout, e),
        a.len() >= e,
        b.len() >= e,
        a.take(e) == b.take(e),
    ensures
        assemble(a, layout) == assemble(b, layout),
{
    assert forall|i: int| 0 <= i < layout.len() implies (#[trigger] layout[i]).line < a.len()
        && layout[i].line < b.len() && a[layout[i].line as int] == b[layout[i].line as int] by {
        let j = layout[i].line as int;
        assert(a.take(e)[j] == b.take(e)[j]);
    }
    lemma_assemble_local(a, b, layout);
}

/// The inputs of a circuit are read from the leading lines of the input file
/// alone: two files that agree on their first `lines_read(compute)` lines
/// (and may differ after them, or end there) give the same prover input and
/// the same verifier input. The preprocessing circuits read only lines 0 to
/// 12 (Poseidon) or 0 to 11 (SHA-256).
pub proof fn lemma_inputs_read_only_leading_lines(
    compute: ComputeType,
    a: Seq<Seq<char>>,
    b: Seq<Seq<char>>,
    rand: nat,
    consts: PoseidonConstants,
)
    requires
        produced_here(compute),
        a.len() >= lines_read(compute),
        b.len() >= lines_read(compute),
        a.take(lines_read(compute)) == b.take(lines_read(compute)),
    ensures
        prover_input_map(compute, a, rand, consts) == prover_input_map(compute, b, rand, consts),
        verifier_input_map(compute, a, rand, consts) == verifier_input_map(compute, b, rand, consts),
{
    let e = lines_read(compute);
    let v = verifier_layout(compute);
    let (p, id_line): (Seq<Field>, int) = match compute {
        ComputeType::PcsSha => (pcs_sha_prover_layout(), 0),
        ComputeType::PcsPoseidon => (pcs_poseidon_prover_layout(), 0),
        ComputeType::PcsPoseidonPreprocess => (pcs_poseidon_preprocess_prover_layout(), 0),
        ComputeType::PcsShaPreprocess => (sha_preprocess_prover_layout(), 0),
        _ => (token_revocation_prover_layout(), 7),
    };
    assert(lines_before(p, e));
    assert(lines_before(v, e));
    lemma_assemble_leading(a, b, p, e);
    lemma_assemble_leading(a, b, v, e);
    assert(a.take(e)[id_line] == b.take(e)[id_line]);
    assert(a[id_line] == b[id_line]);
}

proof fn lemma_reads_pcs_sha_prover_layout(lines: Seq<Seq<char>>)
    ensures
        reads_line(assemble(lines, pcs_sha_prover_layout()), lines, "N_ID_A"@, 1, true),
        reads_line(assemble(lines, pcs_sha_prover_layout()), lines, "salt"@, 2, true),
        reads_line(assemble(lines, pcs_sha_prover_layout()), lines, "EM"@, 3, true),
        reads_line(assemble(lines, pcs_sha_prover_layout()), lines, "r"@, 4, true),
        reads_line(assemble(lines, pcs_sha_prover_layout()), lines, "blinder"@, 5, true),
        reads_line(assemble(lines, pcs_sha_prover_layout()), lines, "blinded"@, 6, true),
        reads_line(assemble(lines, pcs_sha_prover_layout()), lines, "ID_B"@, 7, true),
        reads_line(assemble(lines, pcs_sha_prover_layout()), lines, "N_H"@, 8, true),
        reads_line(assemble(lines, pcs_sha_prover_layout()), lines, "H_r"@, 9, false),
        reads_line(assemble(lines, pcs_sha_prover_layout()), lines, "H"@, 10, true),
        reads_line(assemble(lines, pcs_sha_prover_layout()), lines, "N_old_token"@, 11, true),
        reads_line(assemble(lines, pcs_sha_prover_layout()), lines, "old_token"@, 12, true),
        reads_line(assemble(lines, pcs_sha_prover_layout()), lines, "left_leaf"@, 13, false),
        reads_line(assemble(lines, pcs_sha_prover_layout()), lines, "direction_left"@, 14, true),
        reads_line(assemble(lines, pcs_sha_prover_layout()), lines, "auth_path_left"@, 15, true),
        reads_line(assemble(lines, pcs_sha_prover_layout()), lines, "right_leaf"@, 16, false),
        reads_line(assemble(lines, pcs_sha_prover_layout()), lines, "direction_right"@, 17, true),
        reads_line(assemble(lines, pcs_sha_prover_layout()), lines, "auth_path_right"@, 18, true),
        reads_line(assemble(lines, pcs_sha_prover_layout()), lines, "sub_root"@, 19, false),
        reads_line(assemble(lines, pcs_sha_prover_layout()), lines, "ID_A"@, 20, true),
        reads_line(assemble(lines, pcs_sha_prover_layout()), lines, "direction_root"@, 21, true),
        reads_line(assemble(lines, pcs_sha_prover_layout()), lines, "auth_path_root"@, 22, true),
        reads_line(assemble(lines, pcs_sha_prover_layout()), lines, "root"@, 23, false),
{
    lemma_input_names();
    reveal_strlit("EM");
    reveal_strlit("H");
    reveal_strlit("H_r");
    reveal_strlit("ID_A");
    reveal_strlit("ID_B");
    reveal_strlit("N_H");
    reveal_strlit("N_ID_A");
    reveal_strlit("N_old_token");
    reveal_strlit("auth_path_left");
    reveal_strlit("auth_path_right");
    reveal_strlit("auth_path_root");
    reveal_strlit("blinded");
    reveal_strlit("blinder");
    reveal_strlit("direction_left");
    reveal_strlit("direction_right");
    reveal_strlit("direction_root");
    reveal_strlit("left_leaf");
    reveal_strlit("old_token");
    reveal_strlit("r");
    reveal_strlit("right_leaf");
    reveal_strlit("root");
    reveal_strlit("salt");
    reveal_strlit("sub_root");
    let p = pcs_sha_prover_layout();
    assert(dotless_names(p));
    assert forall|j2: int| 1 < j2 < p.len() implies (#[trigger] p[j2]).name@ != p[1].name@ by {
        if j2 == 2 {
        } else if j2 == 3 {
        } else if j2 == 4 {
        } else if j2 == 5 {
        } else if j2 == 6 {
        } else if j2 == 7 {
        } else if j2 == 8 {
        } else if j2 == 9 {
        } else if j2 == 10 {
        } else if j2 == 11 {
        } else if j2 == 12 {
        } else if j2 == 13 {
        } else if j2 == 14 {
        } else if j2 == 15 {
        } else if j2 == 16 {
        } else if j2 == 17 {
        } else if j2 == 18 {
        } else if j2 == 19 {
        } else if j2 == 20 {
        } else if j2 == 21 {
        } else if j2 == 22 {
        } else if j2 == 23 {
        }
    }
    lemma_assemble_reads_last(lines, p, 1);
    assert forall|j2: int| 2 < j2 < p.len() implies (#[trigger] p[j2]).name@ != p[2].name@ by {
        if j2 == 3 {
        } else if j2 == 4 {
        } else if j2 == 5 {
        } else if j2 == 6 {
        } else if j2 == 7 {
            assert("ID_B"@[0] != "salt"@[0]);
        } else if j2 == 8 {
        } else if j2 == 9 {
        } else if j2 == 10 {
        } else if j2 == 11 {
        } else if j2 == 12 {
        } else if j2 == 13 {
        } else if j2 == 14 {
        } else if j2 == 15 {
        } else if j2 == 16 {
        } else if j2 == 17 {
        } else if j2 == 18 {
        } else if j2 == 19 {
        } else if j2 == 20 {
            assert("ID_A"@[0] != "salt"@[0]);
        } else if j2 == 21 {
        } else if j2 == 22 {
        } else if j2 == 23 {
            assert("root"@[0] != "salt"@[0]);
        }
    }
    lemma_assemble_reads_last(lines, p, 2);
    assert forall|j2: int| 3 < j2 < p.len() implies (#[trigger] p[j2]).name@ != p[3].name@ by {
        if j2 == 4 {
        } else if j2 == 5 {
        } else if j2 == 6 {
        } else if j2 == 7 {
        } else if j2 == 8 {
        } else if j2 == 9 {
        } else if j2 == 10 {
        } else if j2 == 11 {
        } else if j2 == 12 {
        } else if j2 == 13 {
        } else if j2 == 14 {
        } else if j2 == 15 {
        } else if j2 == 16 {
        } else if j2 == 17 {
        } else if j2 == 18 {
        } else if j2 == 19 {
        } else if j2 == 20 {
        } else if j2 == 21 {
        } else if j2 == 22 {
        } else if j2 == 23 {
        }
    }
    lemma_assemble_reads_last(lines, p, 3);
    assert forall|j2: int| 4 < j2 < p.len() implies (#[trigger] p[j2]).name@ != p[4].name@ by {
        if j2 == 5 {
        } else if j2 == 6 {
        } else if j2 == 7 {
        } else if j2 == 8 {
        } else if j2 == 9 {
        } else if j2 == 10 {
            assert("H"@[0] != "r"@[0]);
        } else if j2 == 11 {
        } else if j2 == 12 {
        } else if j2 == 13 {
        } else if j2 == 14 {
        } else if j2 == 15 {
        } else if j2 == 16 {
        } else if j2 == 17 {
        } else if j2 == 18 {
        } else if j2 == 19 {
        } else if j2 == 20 {
        } else if j2 == 21 {
        } else if j2 == 22 {
        } else if j2 == 23 {
        }
    }
    lemma_assemble_reads_last(lines, p, 4);
    assert forall|j2: int| 5 < j2 < p.len() implies (#[trigger] p[j2]).name@ != p[5].name@ by {
        if j2 == 6 {
            assert("blinded"@[6] != "blinder"@[6]);
        } else if j2 == 7 {
        } else if j2 == 8 {
        } else if j2 == 9 {
        } else if j2 == 10 {
        } else if j2 == 11 {
        } else if j2 == 12 {
        } else if j2 == 13 {
        } else if j2 == 14 {
        } else if j2 == 15 {
        } else if j2 == 16 {
        } else if j2 == 17 {
        } else if j2 == 18 {
        } else if j2 == 19 {
        } else if j2 == 20 {
        } else if j2 == 21 {
        } else if j2 == 22 {
        } else if j2 == 23 {
        }
    }
    lemma_assemble_reads_last(lines, p, 5);
    assert forall|j2: int| 6 < j2 < p.len() implies (#[trigger] p[j2]).name@ != p[6].name@ by {
        if j2 == 7 {
        } else if j2 == 8 {
        } else if j2 == 9 {
        } else if j2 == 10 {
        } else if j2 == 11 {
        } else if j2 == 12 {
        } else if j2 == 13 {
        } else if j2 == 14 {
        } else if j2 == 15 {
        } else if j2 == 16 {
        } else if j2 == 17 {
        } else if j2 == 18 {
        } else if j2 == 19 {
        } else if j2 == 20 {
        } else if j2 == 21 {
        } else if j2 == 22 {
        } else if j2 == 23 {
        }
    }
    lemma_assemble_reads_last(lines, p, 6);
    assert forall|j2: int| 7 < j2 < p.len() implies (#[trigger] p[j2]).name@ != p[7].name@ by {
        if j2 == 8 {
        } else if j2 == 9 {
        } else if j2 == 10 {
        } else if j2 == 11 {
        } else if j2 == 12 {
        } else if j2 == 13 {
        } else if j2 == 14 {
        } else if j2 == 15 {
        } else if j2 == 16 {
        } else if j2 == 17 {
        } else if j2 == 18 {
        } else if j2 == 19 {
        } else if j2 == 20 {
            assert("ID_A"@[3] != "ID_B"@[3]);
        } else if j2 == 21 {
        } else if j2 == 22 {
        } else if j2 == 23 {
            assert("root"@[0] != "ID_B"@[0]);
        }
    }
    lemma_assemble_reads_last(lines, p, 7);
    assert forall|j2: int| 8 < j2 < p.len() implies (#[trigger] p[j2]).name@ != p[8].name@ by {
        if j2 == 9 {
            assert("H_r"@[0] != "N_H"@[0]);
        } else if j2 == 10 {
        } else if j2 == 11 {
        } else if j2 == 12 {
        } else if j2 == 13 {
        } else if j2 == 14 {
        } else if j2 == 15 {
        } else if j2 == 16 {
        } else if j2 == 17 {
        } else if j2 == 18 {
        } else if j2 == 19 {
        } else if j2 == 20 {
        } else if j2 == 21 {
        } else if j2 == 22 {
        } else if j2 == 23 {
        }
    }
    lemma_assemble_reads_last(lines, p, 8);
    assert forall|j2: int| 9 < j2 < p.len() implies (#[trigger] p[j2]).name@ != p[9].name@ by {
        if j2 == 10 {
        } else if j2 == 11 {
        } else if j2 == 12 {
        } else if j2 == 13 {
        } else if j2 == 14 {
        } else if j2 == 15 {
        } else if j2 == 16 {
        } else if j2 == 17 {
        } else if j2 == 18 {
        } else if j2 == 19 {
        } else if j2 == 20 {
        } else if j2 == 21 {
        } else if j2 == 22 {
        } else if j2 == 23 {
        }
    }
    lemma_assemble_reads_last(lines, p, 9);
    assert forall|j2: int| 10 < j2 < p.len() implies (#[trigger] p[j2]).name@ != p[10].name@ by {
        if j2 == 11 {
        } else if j2 == 12 {
        } else if j2 == 13 {
        } else if j2 == 14 {
        } else if j2 == 15 {
        } else if j2 == 16 {
        } else if j2 == 17 {
        } else if j2 == 18 {
        } else if j2 == 19 {
        } else if j2 == 20 {
        } else if j2 == 21 {
        } else if j2 == 22 {
        } else if j2 == 23 {
        }
    }
    lemma_assemble_reads_last(lines, p, 10);
    assert forall|j2: int| 11 < j2 < p.len() implies (#[trigger] p[j2]).name@ != p[11].name@ by {
        if j2 == 12 {
        } else if j2 == 13 {
        } else if j2 == 14 {
        } else if j2 == 15 {
        } else if j2 == 16 {
        } else if j2 == 17 {
        } else if j2 == 18 {
        } else if j2 == 19 {
        } else if j2 == 20 {
        } else if j2 == 21 {
        } else if j2 == 22 {
        } else if j2 == 23 {
        }
    }
    lemma_assemble_reads_last(lines, p, 11);
    assert forall|j2: int| 12 < j2 < p.len() implies (#[trigger] p[j2]).name@ != p[12].name@ by {
        if j2 == 13 {
            assert("left_leaf"@[0] != "old_token"@[0]);
        } else if j2 == 14 {
        } else if j2 == 15 {
        } else if j2 == 16 {
        } else if j2 == 17 {
        } else if j2 == 18 {
        } else if j2 == 19 {
        } else if j2 == 20 {
        } else if j2 == 21 {
        } else if j2 == 22 {
        } else if j2 == 23 {
        }
    }
    lemma_assemble_reads_last(lines, p, 12);
    assert forall|j2: int| 13 < j2 < p.len() implies (#[trigger] p[j2]).name@ != p[13].name@ by {
        if j2 == 14 {
        } else if j2 == 15 {
        } else if j2 == 16 {
        } else if j2 == 17 {
        } else if j2 == 18 {
        } else if j2 == 19 {
        } else if j2 == 20 {
        } else if j2 == 21 {
        } else if j2 == 22 {
        } else if j2 == 23 {
        }
    }
    lemma_assemble_reads_last(lines, p, 13);
    assert forall|j2: int| 14 < j2 < p.len() implies (#[trigger] p[j2]).name@ != p[14].name@ by {
        if j2 == 15 {
            assert("auth_path_left"@[0] != "direction_left"@[0]);
        } else if j2 == 16 {
        } else if j2 == 17 {
        } else if j2 == 18 {
        } else if j2 == 19 {
        } else if j2 == 20 {
        } else if j2 == 21 {
            assert("direction_root"@[10] != "direction_left"@[10]);
        } else if j2 == 22 {
            assert("auth_path_root"@[0] != "direction_left"@[0]);
        } else if j2 == 23 {
        }
    }
    lemma_assemble_reads_last(lines, p, 14);
    assert forall|j2: int| 15 < j2 < p.len() implies (#[trigger] p[j2]).name@ != p[15].name@ by {
        if j2 == 16 {
        } else if j2 == 17 {
        } else if j2 == 18 {
        } else if j2 == 19 {
        } else if j2 == 20 {
        } else if j2 == 21 {
            assert("direction_root"@[0] != "auth_path_left"@[0]);
        } else if j2 == 22 {
            assert("auth_path_root"@[10] != "auth_path_left"@[10]);
        } else if j2 == 23 {
        }
    }
    lemma_assemble_reads_last(lines, p, 15);
    assert forall|j2: int| 16 < j2 < p.len() implies (#[trigger] p[j2]).name@ != p[16].name@ by {
        if j2 == 17 {
        } else if j2 == 18 {
        } else if j2 == 19 {
        } else if j2 == 20 {
        } else if j2 == 21 {
        } else if j2 == 22 {
        } else if j2 == 23 {
        }
    }
    lemma_assemble_reads_last(lines, p, 16);
    assert forall|j2: int| 17 < j2 < p.len() implies (#[trigger] p[j2]).name@ != p[17].name@ by {
        if j2 == 18 {
            assert("auth_path_right"@[0] != "direction_right"@[0]);
        } else if j2 == 19 {
        } else if j2 == 20 {
        } else if j2 == 21 {
        } else if j2 == 22 {
        } else if j2 == 23 {
        }
    }
    lemma_assemble_reads_last(lines, p, 17);
    assert forall|j2: int| 18 < j2 < p.len() implies (#[trigger] p[j2]).name@ != p[18].name@ by {
        if j2 == 19 {
        } else if j2 == 20 {
        } else if j2 == 21 {
        } else if j2 == 22 {
        } else if j2 == 23 {
        }
    }
    lemma_assemble_reads_last(lines, p, 18);
    assert forall|j2: int| 19 < j2 < p.len() implies (#[trigger] p[j2]).name@ != p[19].name@ by {
        if j2 == 20 {
        } else if j2 == 21 {
        } else if j2 == 22 {
        } else if j2 == 23 {
        }
    }
    lemma_assemble_reads_last(lines, p, 19);
    assert forall|j2: int| 20 < j2 < p.len() implies (#[trigger] p[j2]).name@ != p[20].name@ by {
        if j2 == 21 {
        } else if j2 == 22 {
        } else if j2 == 23 {
            assert("root"@[0] != "ID_A"@[0]);
        }
    }
    lemma_assemble_reads_last(lines, p, 20);
    assert forall|j2: int| 21 < j2 < p.len() implies (#[trigger] p[j2]).name@ != p[21].name@ by {
        if j2 == 22 {
            assert("auth_path_root"@[0] != "direction_root"@[0]);
        } else if j2 == 23 {
        }
    }
    lemma_assemble_reads_last(lines, p, 21);
    assert forall|j2: int| 22 < j2 < p.len() implies (#[trigger] p[j2]).name@ != p[22].name@ by {
        if j2 == 23 {
        }
    }
    lemma_assemble_reads_last(lines, p, 22);
    lemma_assemble_reads_last(lines, p, 23);
}

proof fn lemma_reads_pcs_sha_verifier_layout(lines: Seq<Seq<char>>)
    ensures
        reads_line(assemble(lines, pcs_sha_verifier_layout()), lines, "blinded"@, 6, true),
        reads_line(assemble(lines, pcs_sha_verifier_layout()), lines, "H"@, 10, true),
        reads_line(assemble(lines, pcs_sha_verifier_layout()), lines, "old_token"@, 12, true),
        reads_line(assemble(lines, pcs_sha_verifier_layout()), lines, "root"@, 23, false),
{
    lemma_input_names();
    reveal_strlit("H");
    reveal_strlit("blinded");
    reveal_strlit("old_token");
    reveal_strlit("root");
    let p = pcs_sha_verifier_layout();
    assert(dotless_names(p));
    assert forall|j2: int| 0 < j2 < p.len() implies (#[trigger] p[j2]).name@ != p[0].name@ by {
        if j2 == 1 {
        } else if j2 == 2 {
        } else if j2 == 3 {
        }
    }
    lemma_assemble_reads_last(lines, p, 0);
    assert forall|j2: int| 1 < j2 < p.len() implies (#[trigger] p[j2]).name@ != p[1].name@ by {
        if j2 == 2 {
        } else if j2 == 3 {
        }
    }
    lemma_assemble_reads_last(lines, p, 1);
    assert forall|j2: int| 2 < j2 < p.len() implies (#[trigger] p[j2]).name@ != p[2].name@ by {
        if j2 == 3 {
        }
    }
    lemma_assemble_reads_last(lines, p, 2);
    lemma_assemble_reads_last(lines, p, 3);
}

proof fn lemma_reads_pcs_poseidon_prover_layout(lines: Seq<Seq<char>>)
    ensures
        reads_line(assemble(lines, pcs_poseidon_prover_layout()), lines, "N_ID_A"@, 1, true),
        reads_line(assemble(lines, pcs_poseidon_prover_layout()), lines, "salt"@, 2, true),
        reads_line(assemble(lines, pcs_poseidon_prover_layout()), lines, "EM"@, 3, true),
        reads_line(assemble(lines, pcs_poseidon_prover_layout()), lines, "r"@, 4, true),
        reads_line(assemble(lines, pcs_poseidon_prover_layout()), lines, "blinder"@, 5, true),
        reads_line(assemble(lines, pcs_poseidon_prover_layout()), lines, "blinded"@, 6, true),
        reads_line(assemble(lines, pcs_poseidon_prover_layout()), lines, "ID_B"@, 7, true),
        reads_line(assemble(lines, pcs_poseidon_prover_layout()), lines, "N_H"@, 8, true),
        reads_line(assemble(lines, pcs_poseidon_prover_layout()), lines, "H_r"@, 9, false),
        reads_line(assemble(lines, pcs_poseidon_prover_layout()), lines, "H"@, 10, false),
        reads_line(assemble(lines, pcs_poseidon_prover_layout()), lines, "N_old_token"@, 11, true),
        reads_line(assemble(lines, pcs_poseidon_prover_layout()), lines, "old_token"@, 12, false),
        reads_line(assemble(lines, pcs_poseidon_prover_layout()), lines, "left_leaf"@, 13, false),
        reads_line(assemble(lines, pcs_poseidon_prover_layout()), lines, "direction_left"@, 14, true),
        reads_line(assemble(lines, pcs_poseidon_prover_layout()), lines, "auth_path_left"@, 15, true),
        reads_line(assemble(lines, pcs_poseidon_prover_layout()), lines, "right_leaf"@, 16, false),
        reads_line(assemble(lines, pcs_poseidon_prover_layout()), lines, "direction_right"@, 17, true),
        reads_line(assemble(lines, pcs_poseidon_prover_layout()), lines, "auth_path_right"@, 18, true),
        reads_line(assemble(lines, pcs_poseidon_prover_layout()), lines, "sub_root"@, 19, false),
        reads_line(assemble(lines, pcs_poseidon_prover_layout()), lines, "ID_A"@, 20, true),
        reads_line(assemble(lines, pcs_poseidon_prover_layout()), lines, "direction_root"@, 21, true),
        reads_line(assemble(lines, pcs_poseidon_prover_layout()), lines, "auth_path_root"@, 22, true),
        reads_line(assemble(lines, pcs_poseidon_prover_layout()), lines, "root"@, 23, false),
{
    lemma_input_names();
    reveal_strlit("EM");
    reveal_strlit("H");
    reveal_strlit("H_r");
    reveal_strlit("ID_A");
    reveal_strlit("ID_B");
    reveal_strlit("N_H");
    reveal_strlit("N_ID_A");
    reveal_strlit("N_old_token");
    reveal_strlit("auth_path_left");
    reveal_strlit("auth_path_right");
    reveal_strlit("auth_path_root");
    reveal_strlit("blinded");
    reveal_strlit("blinder");
    reveal_strlit("direction_left");
    reveal_strlit("direction_right");
    reveal_strlit("direction_root");
    reveal_strlit("left_leaf");
    reveal_strlit("old_token");
    reveal_strlit("r");
    reveal_strlit("right_leaf");
    reveal_strlit("root");
    reveal_strlit("salt");
    reveal_strlit("sub_root");
    let p = pcs_poseidon_prover_layout();
    assert(dotless_names(p));
    assert forall|j2: int| 1 < j2 < p.len() implies (#[trigger] p[j2]).name@ != p[1].name@ by {
        if j2 == 2 {
        } else if j2 == 3 {
        } else if j2 == 4 {
        } else if j2 == 5 {
        } else if j2 == 6 {
        } else if j2 == 7 {
        } else if j2 == 8 {
        } else if j2 == 9 {
        } else if j2 == 10 {
        } else if j2 == 11 {
        } else if j2 == 12 {
        } else if j2 == 13 {
        } else if j2 == 14 {
        } else if j2 == 15 {
        } else if j2 == 16 {
        } else if j2 == 17 {
        } else if j2 == 18 {
        } else if j2 == 19 {
        } else if j2 == 20 {
        } else if j2 == 21 {
        } else if j2 == 22 {
        } else if j2 == 23 {
        }
    }
    lemma_assemble_reads_last(lines, p, 1);
    assert forall|j2: int| 2 < j2 < p.len() implies (#[trigger] p[j2]).name@ != p[2].name@ by {
        if j2 == 3 {
        } else if j2 == 4 {
        } else if j2 == 5 {
        } else if j2 == 6 {
        } else if j2 == 7 {
            assert("ID_B"@[0] != "salt"@[0]);
        } else if j2 == 8 {
        } else if j2 == 9 {
        } else if j2 == 10 {
        } else if j2 == 11 {
        } else if j2 == 12 {
        } else if j2 == 13 {
        } else if j2 == 14 {
        } else if j2 == 15 {
        } else if j2 == 16 {
        } else if j2 == 17 {
        } else if j2 == 18 {
        } else if j2 == 19 {
        } else if j2 == 20 {
            assert("ID_A"@[0] != "salt"@[0]);
        } else if j2 == 21 {
        } else if j2 == 22 {
        } else if j2 == 23 {
            assert("root"@[0] != "salt"@[0]);
        }
    }
    lemma_assemble_reads_last(lines, p, 2);
    assert forall|j2: int| 3 < j2 < p.len() implies (#[trigger] p[j2]).name@ != p[3].name@ by {
        if j2 == 4 {
        } else if j2 == 5 {
        } else if j2 == 6 {
        } else if j2 == 7 {
        } else if j2 == 8 {
        } else if j2 == 9 {
        } else if j2 == 10 {
        } else if j2 == 11 {
        } else if j2 == 12 {
        } else if j2 == 13 {
        } else if j2 == 14 {
        } else if j2 == 15 {
        } else if j2 == 16 {
        } else if j2 == 17 {
        } else if j2 == 18 {
        } else if j2 == 19 {
        } else if j2 == 20 {
        } else if j2 == 21 {
        } else if j2 == 22 {
        } else if j2 == 23 {
        }
    }
    lemma_assemble_reads_last(lines, p, 3);
    assert forall|j2: int| 4 < j2 < p.len() implies (#[trigger] p[j2]).name@ != p[4].name@ by {
        if j2 == 5 {
        } else if j2 == 6 {
        } else if j2 == 7 {
        } else if j2 == 8 {
        } else if j2 == 9 {
        } else if j2 == 10 {
            assert("H"@[0] != "r"@[0]);
        } else if j2 == 11 {
        } else if j2 == 12 {
        } else if j2 == 13 {
        } else if j2 == 14 {
        } else if j2 == 15 {
        } else if j2 == 16 {
        } else if j2 == 17 {
        } else if j2 == 18 {
        } else if j2 == 19 {
        } else if j2 == 20 {
        } else if j2 == 21 {
        } else if j2 == 22 {
        } else if j2 == 23 {
        }
    }
    lemma_assemble_reads_last(lines, p, 4);
    assert forall|j2: int| 5 < j2 < p.len() implies (#[trigger] p[j2]).name@ != p[5].name@ by {
        if j2 == 6 {
            assert("blinded"@[6] != "blinder"@[6]);
        } else if j2 == 7 {
        } else if j2 == 8 {
        } else if j2 == 9 {
        } else if j2 == 10 {
        } else if j2 == 11 {
        } else if j2 == 12 {
        } else if j2 == 13 {
        } else if j2 == 14 {
        } else if j2 == 15 {
        } else if j2 == 16 {
        } else if j2 == 17 {
        } else if j2 == 18 {
        } else if j2 == 19 {
        } else if j2 == 20 {
        } else if j2 == 21 {
        } else if j2 == 22 {
        } else if j2 == 23 {
        }
    }
    lemma_assemble_reads_last(lines, p, 5);
    assert forall|j2: int| 6 < j2 < p.len() implies (#[trigger] p[j2]).name@ != p[6].name@ by {
        if j2 == 7 {
        } else if j2 == 8 {
        } else if j2 == 9 {
        } else if j2 == 10 {
        } else if j2 == 11 {
        } else if j2 == 12 {
        } else if j2 == 13 {
        } else if j2 == 14 {
        } else if j2 == 15 {
        } else if j2 == 16 {
        } else if j2 == 17 {
        } else if j2 == 18 {
        } else if j2 == 19 {
        } else if j2 == 20 {
        } else if j2 == 21 {
        } else if j2 == 22 {
        } else if j2 == 23 {
        }
    }
    lemma_assemble_reads_last(lines, p, 6);
    assert forall|j2: int| 7 < j2 < p.len() implies (#[trigger] p[j2]).name@ != p[7].name@ by {
        if j2 == 8 {
        } else if j2 == 9 {
        } else if j2 == 10 {
        } else if j2 == 11 {
        } else if j2 == 12 {
        } else if j2 == 13 {
        } else if j2 == 14 {
        } else if j2 == 15 {
        } else if j2 == 16 {
        } else if j2 == 17 {
        } else if j2 == 18 {
        } else if j2 == 19 {
        } else if j2 == 20 {
            assert("ID_A"@[3] != "ID_B"@[3]);
        } else if j2 == 21 {
        } else if j2 == 22 {
        } else if j2 == 23 {
            assert("root"@[0] != "ID_B"@[0]);
        }
    }
    lemma_assemble_reads_last(lines, p, 7);
    assert forall|j2: int| 8 < j2 < p.len() implies (#[trigger] p[j2]).name@ != p[8].name@ by {
        if j2 == 9 {
            assert("H_r"@[0] != "N_H"@[0]);
        } else if j2 == 10 {
        } else if j2 == 11 {
        } else if j2 == 12 {
        } else if j2 == 13 {
        } else if j2 == 14 {
        } else if j2 == 15 {
        } else if j2 == 16 {
        } else if j2 == 17 {
        } else if j2 == 18 {
        } else if j2 == 19 {
        } else if j2 == 20 {
        } else if j2 == 21 {
        } else if j2 == 22 {
        } else if j2 == 23 {
        }
    }
    lemma_assemble_reads_last(lines, p, 8);
    assert forall|j2: int| 9 < j2 < p.len() implies (#[trigger] p[j2]).name@ != p[9].name@ by {
        if j2 == 10 {
        } else if j2 == 11 {
        } else if j2 == 12 {
        } else if j2 == 13 {
        } else if j2 == 14 {
        } else if j2 == 15 {
        } else if j2 == 16 {
        } else if j2 == 17 {
        } else if j2 == 18 {
        } else if j2 == 19 {
        } else if j2 == 20 {
        } else if j2 == 21 {
        } else if j2 == 22 {
        } else if j2 == 23 {
        }
    }
    lemma_assemble_reads_last(lines, p, 9);
    assert forall|j2: int| 10 < j2 < p.len() implies (#[trigger] p[j2]).name@ != p[10].name@ by {
        if j2 == 11 {
        } else if j2 == 12 {
        } else if j2 == 13 {
        } else if j2 == 14 {
        } else if j2 == 15 {
        } else if j2 == 16 {
        } else if j2 == 17 {
        } else if j2 == 18 {
        } else if j2 == 19 {
        } else if j2 == 20 {
        } else if j2 == 21 {
        } else if j2 == 22 {
        } else if j2 == 23 {
        }
    }
    lemma_assemble_reads_last(lines, p, 10);
    assert forall|j2: int| 11 < j2 < p.len() implies (#[trigger] p[j2]).name@ != p[11].name@ by {
        if j2 == 12 {
        } else if j2 == 13 {
        } else if j2 == 14 {
        } else if j2 == 15 {
        } else if j2 == 16 {
        } else if j2 == 17 {
        } else if j2 == 18 {
        } else if j2 == 19 {
        } else if j2 == 20 {
        } else if j2 == 21 {
        } else if j2 == 22 {
        } else if j2 == 23 {
        }
    }
    lemma_assemble_reads_last(lines, p, 11);
    assert forall|j2: int| 12 < j2 < p.len() implies (#[trigger] p[j2]).name@ != p[12].name@ by {
        if j2 == 13 {
            assert("left_leaf"@[0] != "old_token"@[0]);
        } else if j2 == 14 {
        } else if j2 == 15 {
        } else if j2 == 16 {
        } else if j2 == 17 {
        } else if j2 == 18 {
        } else if j2 == 19 {
        } else if j2 == 20 {
        } else if j2 == 21 {
        } else if j2 == 22 {
        } else if j2 == 23 {
        }
    }
    lemma_assemble_reads_last(lines, p, 12);
    assert forall|j2: int| 13 < j2 < p.len() implies (#[trigger] p[j2]).name@ != p[13].name@ by {
        if j2 == 14 {
        } else if j2 == 15 {
        } else if j2 == 16 {
        } else if j2 == 17 {
        } else if j2 == 18 {
        } else if j2 == 19 {
        } else if j2 == 20 {
        } else if j2 == 21 {
        } else if j2 == 22 {
        } else if j2 == 23 {
        }
    }
    lemma_assemble_reads_last(lines, p, 13);
    assert forall|j2: int| 14 < j2 < p.len() implies (#[trigger] p[j2]).name@ != p[14].name@ by {
        if j2 == 15 {
            assert("auth_path_left"@[0] != "direction_left"@[0]);
        } else if j2 == 16 {
        } else if j2 == 17 {
        } else if j2 == 18 {
        } else if j2 == 19 {
        } else if j2 == 20 {
        } else if j2 == 21 {
            assert("direction_root"@[10] != "direction_left"@[10]);
        } else if j2 == 22 {
            assert("auth_path_root"@[0] != "direction_left"@[0]);
        } else if j2 == 23 {
        }
    }
    lemma_assemble_reads_last(lines, p, 14);
    assert forall|j2: int| 15 < j2 < p.len() implies (#[trigger] p[j2]).name@ != p[15].name@ by {
        if j2 == 16 {
        } else if j2 == 17 {
        } else if j2 == 18 {
        } else if j2 == 19 {
        } else if j2 == 20 {
        } else if j2 == 21 {
            assert("direction_root"@[0] != "auth_path_left"@[0]);
        } else if j2 == 22 {
            assert("auth_path_root"@[10] != "auth_path_left"@[10]);
        } else if j2 == 23 {
        }
    }
    lemma_assemble_reads_last(lines, p, 15);
    assert forall|j2: int| 16 < j2 < p.len() implies (#[trigger] p[j2]).name@ != p[16].name@ by {
        if j2 == 17 {
        } else if j2 == 18 {
        } else if j2 == 19 {
        } else if j2 == 20 {
        } else if j2 == 21 {
        } else if j2 == 22 {
        } else if j2 == 23 {
        }
    }
    lemma_assemble_reads_last(lines, p, 16);
    assert forall|j2: int| 17 < j2 < p.len() implies (#[trigger] p[j2]).name@ != p[17].name@ by {
        if j2 == 18 {
            assert("auth_path_right"@[0] != "direction_right"@[0]);
        } else if j2 == 19 {
        } else if j2 == 20 {
        } else if j2 == 21 {
        } else if j2 == 22 {
        } else if j2 == 23 {
        }
    }
    lemma_assemble_reads_last(lines, p, 17);
    assert forall|j2: int| 18 < j2 < p.len() implies (#[trigger] p[j2]).name@ != p[18].name@ by {
        if j2 == 19 {
        } else if j2 == 20 {
        } else if j2 == 21 {
        } else if j2 == 22 {
        } else if j2 == 23 {
        }
    }
    lemma_assemble_reads_last(lines, p, 18);
    assert forall|j2: int| 19 < j2 < p.len() implies (#[trigger] p[j2]).name@ != p[19].name@ by {
        if j2 == 20 {
        } else if j2 == 21 {
        } else if j2 == 22 {
        } else if j2 == 23 {
        }
    }
    lemma_assemble_reads_last(lines, p, 19);
    assert forall|j2: int| 20 < j2 < p.len() implies (#[trigger] p[j2]).name@ != p[20].name@ by {
        if j2 == 21 {
        } else if j2 == 22 {
        } else if j2 == 23 {
            assert("root"@[0] != "ID_A"@[0]);
        }
    }
    lemma_assemble_reads_last(lines, p, 20);
    assert forall|j2: int| 21 < j2 < p.len() implies (#[trigger] p[j2]).name@ != p[21].name@ by {
        if j2 == 22 {
            assert("auth_path_root"@[0] != "direction_root"@[0]);
        } else if j2 == 23 {
        }
    }
    lemma_assemble_reads_last(lines, p, 21);
    assert forall|j2: int| 22 < j2 < p.len() implies (#[trigger] p[j2]).name@ != p[22].name@ by {
        if j2 == 23 {
        }
    }
    lemma_assemble_reads_last(lines, p, 22);
    lemma_assemble_reads_last(lines, p, 23);
}

proof fn lemma_reads_pcs_poseidon_verifier_layout(lines: Seq<Seq<char>>)
    ensures
        reads_line(assemble(lines, pcs_poseidon_verifier_layout()), lines, "blinded"@, 6, true),
        reads_line(assemble(lines, pcs_poseidon_verifier_layout()), lines, "H"@, 10, false),
        reads_line(assemble(lines, pcs_poseidon_verifier_layout()), lines, "old_token"@, 12, false),
        reads_line(assemble(lines, pcs_poseidon_verifier_layout()), lines, "root"@, 23, false),
{
    lemma_input_names();
    reveal_strlit("H");
    reveal_strlit("blinded");
    reveal_strlit("old_token");
    reveal_strlit("root");
    let p = pcs_poseidon_verifier_layout();
    assert(dotless_names(p));
    assert forall|j2: int| 0 < j2 < p.len() implies (#[trigger] p[j2]).name@ != p[0].name@ by {
        if j2 == 1 {
        } else if j2 == 2 {
        } else if j2 == 3 {
        }
    }
    lemma_assemble_reads_last(lines, p, 0);
    assert forall|j2: int| 1 < j2 < p.len() implies (#[trigger] p[j2]).name@ != p[1].name@ by {
        if j2 == 2 {
        } else if j2 == 3 {
        }
    }
    lemma_assemble_reads_last(lines, p, 1);
    assert forall|j2: int| 2 < j2 < p.len() implies (#[trigger] p[j2]).name@ != p[2].name@ by {
        if j2 == 3 {
        }
    }
    lemma_assemble_reads_last(lines, p, 2);
    lemma_assemble_reads_last(lines, p, 3);
}

proof fn lemma_reads_pcs_poseidon_preprocess_prover_layout(lines: Seq<Seq<char>>)
    ensures
        reads_line(assemble(lines, pcs_poseidon_preprocess_prover_layout()), lines, "ID_A"@, 0, true),
        reads_line(assemble(lines, pcs_poseidon_preprocess_prover_layout()), lines, "N_ID_A"@, 1, true),
        reads_line(assemble(lines, pcs_poseidon_preprocess_prover_layout()), lines, "salt"@, 2, true),
        reads_line(assemble(lines, pcs_poseidon_preprocess_prover_layout()), lines, "EM"@, 3, true),
        reads_line(assemble(lines, pcs_poseidon_preprocess_prover_layout()), lines, "r"@, 4, true),
        reads_line(assemble(lines, pcs_poseidon_preprocess_prover_layout()), lines, "blinder"@, 5, true),
        reads_line(assemble(lines, pcs_poseidon_preprocess_prover_layout()), lines, "blinded"@, 6, true),
        reads_line(assemble(lines, pcs_poseidon_preprocess_prover_layout()), lines, "ID_B"@, 7, true),
        reads_line(assemble(lines, pcs_poseidon_preprocess_prover_layout()), lines, "N_H"@, 8, true),
        reads_line(assemble(lines, pcs_poseidon_preprocess_prover_layout()), lines, "H_r"@, 9, false),
        reads_line(assemble(lines, pcs_poseidon_preprocess_prover_layout()), lines, "H"@, 10, false),
        reads_line(assemble(lines, pcs_poseidon_preprocess_prover_layout()), lines, "N_old_token"@, 11, true),
        reads_line(assemble(lines, pcs_poseidon_preprocess_prover_layout()), lines, "old_token"@, 12, false),
{
    lemma_input_names();
    reveal_strlit("EM");
    reveal_strlit("H");
    reveal_strlit("H_r");
    reveal_strlit("ID_A");
    reveal_strlit("ID_B");
    reveal_strlit("N_H");
    reveal_strlit("N_ID_A");
    reveal_strlit("N_old_token");
    reveal_strlit("blinded");
    reveal_strlit("blinder");
    reveal_strlit("old_token");
    reveal_strlit("r");
    reveal_strlit("salt");
    let p = pcs_poseidon_preprocess_prover_layout();
    assert(dotless_names(p));
    assert forall|j2: int| 0 < j2 < p.len() implies (#[trigger] p[j2]).name@ != p[0].name@ by {
        if j2 == 1 {
        } else if j2 == 2 {
            assert("salt"@[0] != "ID_A"@[0]);
        } else if j2 == 3 {
        } else if j2 == 4 {
        } else if j2 == 5 {
        } else if j2 == 6 {
        } else if j2 == 7 {
            assert("ID_B"@[3] != "ID_A"@[3]);
        } else if j2 == 8 {
        } else if j2 == 9 {
        } else if j2 == 10 {
        } else if j2 == 11 {
        } else if j2 == 12 {
        }
    }
    lemma_assemble_reads_last(lines, p, 0);
    assert forall|j2: int| 1 < j2 < p.len() implies (#[trigger] p[j2]).name@ != p[1].name@ by {
        if j2 == 2 {
        } else if j2 == 3 {
        } else if j2 == 4 {
        } else if j2 == 5 {
        } else if j2 == 6 {
        } else if j2 == 7 {
        } else if j2 == 8 {
        } else if j2 == 9 {
        } else if j2 == 10 {
        } else if j2 == 11 {
        } else if j2 == 12 {
        }
    }
    lemma_assemble_reads_last(lines, p, 1);
    assert forall|j2: int| 2 < j2 < p.len() implies (#[trigger] p[j2]).name@ != p[2].name@ by {
        if j2 == 3 {
        } else if j2 == 4 {
        } else if j2 == 5 {
        } else if j2 == 6 {
        } else if j2 == 7 {
            assert("ID_B"@[0] != "salt"@[0]);
        } else if j2 == 8 {
        } else if j2 == 9 {
        } else if j2 == 10 {
        } else if j2 == 11 {
        } else if j2 == 12 {
        }
    }
    lemma_assemble_reads_last(lines, p, 2);
    assert forall|j2: int| 3 < j2 < p.len() implies (#[trigger] p[j2]).name@ != p[3].name@ by {
        if j2 == 4 {
        } else if j2 == 5 {
        } else if j2 == 6 {
        } else if j2 == 7 {
        } else if j2 == 8 {
        } else if j2 == 9 {
        } else if j2 == 10 {
        } else if j2 == 11 {
        } else if j2 == 12 {
        }
    }
    lemma_assemble_reads_last(lines, p, 3);
    assert forall|j2: int| 4 < j2 < p.len() implies (#[trigger] p[j2]).name@ != p[4].name@ by {
        if j2 == 5 {
        } else if j2 == 6 {
        } else if j2 == 7 {
        } else if j2 == 8 {
        } else if j2 == 9 {
        } else if j2 == 10 {
            assert("H"@[0] != "r"@[0]);
        } else if j2 == 11 {
        } else if j2 == 12 {
        }
    }
    lemma_assemble_reads_last(lines, p, 4);
    assert forall|j2: int| 5 < j2 < p.len() implies (#[trigger] p[j2]).name@ != p[5].name@ by {
        if j2 == 6 {
            assert("blinded"@[6] != "blinder"@[6]);
        } else if j2 == 7 {
        } else if j2 == 8 {
        } else if j2 == 9 {
        } else if j2 == 10 {
        } else if j2 == 11 {
        } else if j2 == 12 {
        }
    }
    lemma_assemble_reads_last(lines, p, 5);
    assert forall|j2: int| 6 < j2 < p.len() implies (#[trigger] p[j2]).name@ != p[6].name@ by {
        if j2 == 7 {
        } else if j2 == 8 {
        } else if j2 == 9 {
        } else if j2 == 10 {
        } else if j2 == 11 {
        } else if j2 == 12 {
        }
    }
    lemma_assemble_reads_last(lines, p, 6);
    assert forall|j2: int| 7 < j2 < p.len() implies (#[trigger] p[j2]).name@ != p[7].name@ by {
        if j2 == 8 {
        } else if j2 == 9 {
        } else if j2 == 10 {
        } else if j2 == 11 {
        } else if j2 == 12 {
        }
    }
    lemma_assemble_reads_last(lines, p, 7);
    assert forall|j2: int| 8 < j2 < p.len() implies (#[trigger] p[j2]).name@ != p[8].name@ by {
        if j2 == 9 {
            assert("H_r"@[0] != "N_H"@[0]);
        } else if j2 == 10 {
        } else if j2 == 11 {
        } else if j2 == 12 {
        }
    }
    lemma_assemble_reads_last(lines, p, 8);
    assert forall|j2: int| 9 < j2 < p.len() implies (#[trigger] p[j2]).name@ != p[9].name@ by {
        if j2 == 10 {
        } else if j2 == 11 {
        } else if j2 == 12 {
        }
    }
    lemma_assemble_reads_last(lines, p, 9);
    assert forall|j2: int| 10 < j2 < p.len() implies (#[trigger] p[j2]).name@ != p[10].name@ by {
        if j2 == 11 {
        } else if j2 == 12 {
        }
    }
    lemma_assemble_reads_last(lines, p, 10);
    assert forall|j2: int| 11 < j2 < p.len() implies (#[trigger] p[j2]).name@ != p[11].name@ by {
        if j2 == 12 {
        }
    }
    lemma_assemble_reads_last(lines, p, 11);
    lemma_assemble_reads_last(lines, p, 12);
}

proof fn lemma_reads_pcs_preprocess_verifier_layout(lines: Seq<Seq<char>>)
    ensures
        reads_line(assemble(lines, pcs_preprocess_verifier_layout()), lines, "blinded"@, 6, true),
        reads_line(assemble(lines, pcs_preprocess_verifier_layout()), lines, "H"@, 10, false),
        reads_line(assemble(lines, pcs_preprocess_verifier_layout()), lines, "old_token"@, 12, false),
{
    lemma_input_names();
    reveal_strlit("H");
    reveal_strlit("blinded");
    reveal_strlit("old_token");
    let p = pcs_preprocess_verifier_layout();
    assert(dotless_names(p));
    assert forall|j2: int| 0 < j2 < p.len() implies (#[trigger] p[j2]).name@ != p[0].name@ by {
        if j2 == 1 {
        } else if j2 == 2 {
        }
    }
    lemma_assemble_reads_last(lines, p, 0);
    assert forall|j2: int| 1 < j2 < p.len() implies (#[trigger] p[j2]).name@ != p[1].name@ by {
        if j2 == 2 {
        }
    }
    lemma_assemble_reads_last(lines, p, 1);
    lemma_assemble_reads_last(lines, p, 2);
}

proof fn lemma_reads_sha_preprocess_prover_layout(lines: Seq<Seq<char>>)
    ensures
        reads_line(assemble(lines, sha_preprocess_prover_layout()), lines, "ID_A"@, 0, true),
        reads_line(assemble(lines, sha_preprocess_prover_layout()), lines, "N_ID_A"@, 1, true),
        reads_line(assemble(lines, sha_preprocess_prover_layout()), lines, "salt"@, 2, true),
        reads_line(assemble(lines, sha_preprocess_prover_layout()), lines, "EM"@, 3, true),
        reads_line(assemble(lines, sha_preprocess_prover_layout()), lines, "blinder"@, 4, true),
        reads_line(assemble(lines, sha_preprocess_prover_layout()), lines, "blinded"@, 5, true),
        reads_line(assemble(lines, sha_preprocess_prover_layout()), lines, "ID_B"@, 6, true),
        reads_line(assemble(lines, sha_preprocess_prover_layout()), lines, "N_H"@, 7, true),
        reads_line(assemble(lines, sha_preprocess_prover_layout()), lines, "H_r"@, 8, false),
        reads_line(assemble(lines, sha_preprocess_prover_layout()), lines, "H"@, 9, true),
        reads_line(assemble(lines, sha_preprocess_prover_layout()), lines, "N_old_token"@, 10, true),
        reads_line(assemble(lines, sha_preprocess_prover_layout()), lines, "old_token"@, 11, true),
{
    lemma_input_names();
    reveal_strlit("EM");
    reveal_strlit("H");
    reveal_strlit("H_r");
    reveal_strlit("ID_A");
    reveal_strlit("ID_B");
    reveal_strlit("N_H");
    reveal_strlit("N_ID_A");
    reveal_strlit("N_old_token");
    reveal_strlit("blinded");
    reveal_strlit("blinder");
    reveal_strlit("old_token");
    reveal_strlit("salt");
    let p = sha_preprocess_prover_layout();
    assert(dotless_names(p));
    assert forall|j2: int| 0 < j2 < p.len() implies (#[trigger] p[j2]).name@ != p[0].name@ by {
        if j2 == 1 {
        } else if j2 == 2 {
            assert("salt"@[0] != "ID_A"@[0]);
        } else if j2 == 3 {
        } else if j2 == 4 {
        } else if j2 == 5 {
        } else if j2 == 6 {
            assert("ID_B"@[3] != "ID_A"@[3]);
        } else if j2 == 7 {
        } else if j2 == 8 {
        } else if j2 == 9 {
        } else if j2 == 10 {
        } else if j2 == 11 {
        }
    }
    lemma_assemble_reads_last(lines, p, 0);
    assert forall|j2: int| 1 < j2 < p.len() implies (#[trigger] p[j2]).name@ != p[1].name@ by {
        if j2 == 2 {
        } else if j2 == 3 {
        } else if j2 == 4 {
        } else if j2 == 5 {
        } else if j2 == 6 {
        } else if j2 == 7 {
        } else if j2 == 8 {
        } else if j2 == 9 {
        } else if j2 == 10 {
        } else if j2 == 11 {
        }
    }
    lemma_assemble_reads_last(lines, p, 1);
    assert forall|j2: int| 2 < j2 < p.len() implies (#[trigger] p[j2]).name@ != p[2].name@ by {
        if j2 == 3 {
        } else if j2 == 4 {
        } else if j2 == 5 {
        } else if j2 == 6 {
            assert("ID_B"@[0] != "salt"@[0]);
        } else if j2 == 7 {
        } else if j2 == 8 {
        } else if j2 == 9 {
        } else if j2 == 10 {
        } else if j2 == 11 {
        }
    }
    lemma_assemble_reads_last(lines, p, 2);
    assert forall|j2: int| 3 < j2 < p.len() implies (#[trigger] p[j2]).name@ != p[3].name@ by {
        if j2 == 4 {
        } else if j2 == 5 {
        } else if j2 == 6 {
        } else if j2 == 7 {
        } else if j2 == 8 {
        } else if j2 == 9 {
        } else if j2 == 10 {
        } else if j2 == 11 {
        }
    }
    lemma_assemble_reads_last(lines, p, 3);
    assert forall|j2: int| 4 < j2 < p.len() implies (#[trigger] p[j2]).name@ != p[4].name@ by {
        if j2 == 5 {
            assert("blinded"@[6] != "blinder"@[6]);
        } else if j2 == 6 {
        } else if j2 == 7 {
        } else if j2 == 8 {
        } else if j2 == 9 {
        } else if j2 == 10 {
        } else if j2 == 11 {
        }
    }
    lemma_assemble_reads_last(lines, p, 4);
    assert forall|j2: int| 5 < j2 < p.len() implies (#[trigger] p[j2]).name@ != p[5].name@ by {
        if j2 == 6 {
        } else if j2 == 7 {
        } else if j2 == 8 {
        } else if j2 == 9 {
        } else if j2 == 10 {
        } else if j2 == 11 {
        }
    }
    lemma_assemble_reads_last(lines, p, 5);
    assert forall|j2: int| 6 < j2 < p.len() implies (#[trigger] p[j2]).name@ != p[6].name@ by {
        if j2 == 7 {
        } else if j2 == 8 {
        } else if j2 == 9 {
        } else if j2 == 10 {
        } else if j2 == 11 {
        }
    }
    lemma_assemble_reads_last(lines, p, 6);
    assert forall|j2: int| 7 < j2 < p.len() implies (#[trigger] p[j2]).name@ != p[7].name@ by {
        if j2 == 8 {
            assert("H_r"@[0] != "N_H"@[0]);
        } else if j2 == 9 {
        } else if j2 == 10 {
        } else if j2 == 11 {
        }
    }
    lemma_assemble_reads_last(lines, p, 7);
    assert forall|j2: int| 8 < j2 < p.len() implies (#[trigger] p[j2]).name@ != p[8].name@ by {
        if j2 == 9 {
        } else if j2 == 10 {
        } else if j2 == 11 {
        }
    }
    lemma_assemble_reads_last(lines, p, 8);
    assert forall|j2: int| 9 < j2 < p.len() implies (#[trigger] p[j2]).name@ != p[9].name@ by {
        if j2 == 10 {
        } else if j2 == 11 {
        }
    }
    lemma_assemble_reads_last(lines, p, 9);
    assert forall|j2: int| 10 < j2 < p.len() implies (#[trigger] p[j2]).name@ != p[10].name@ by {
        if j2 == 11 {
        }
    }
    lemma_assemble_reads_last(lines, p, 10);
    lemma_assemble_reads_last(lines, p, 11);
}

proof fn lemma_reads_sha_preprocess_verifier_layout(lines: Seq<Seq<char>>)
    ensures
        reads_line(assemble(lines, sha_preprocess_verifier_layout()), lines, "blinded"@, 5, true),
        reads_line(assemble(lines, sha_preprocess_verifier_layout()), lines, "H"@, 9, true),
        reads_line(assemble(lines, sha_preprocess_verifier_layout()), lines, "old_token"@, 11, true),
{
    lemma_input_names();
    reveal_strlit("H");
    reveal_strlit("blinded");
    reveal_strlit("old_token");
    let p = sha_preprocess_verifier_layout();
    assert(dotless_names(p));
    assert forall|j2: int| 0 < j2 < p.len() implies (#[trigger] p[j2]).name@ != p[0].name@ by {
        if j2 == 1 {
        } else if j2 == 2 {
        }
    }
    lemma_assemble_reads_last(lines, p, 0);
    assert forall|j2: int| 1 < j2 < p.len() implies (#[trigger] p[j2]).name@ != p[1].name@ by {
        if j2 == 2 {
        }
    }
    lemma_assemble_reads_last(lines, p, 1);
    lemma_assemble_reads_last(lines, p, 2);
}

proof fn lemma_reads_token_revocation_prover_layout(lines: Seq<Seq<char>>)
    ensures
        reads_line(assemble(lines, token_revocation_prover_layout()), lines, "left_leaf"@, 0, false),
        reads_line(assemble(lines, token_revocation_prover_layout()), lines, "direction_left"@, 1, true),
        reads_line(assemble(lines, token_revocation_prover_layout()), lines, "auth_path_left"@, 2, true),
        reads_line(assemble(lines, token_revocation_prover_layout()), lines, "right_leaf"@, 3, false),
        reads_line(assemble(lines, token_revocation_prover_layout()), lines, "direction_right"@, 4, true),
        reads_line(assemble(lines, token_revocation_prover_layout()), lines, "auth_path_right"@, 5, true),
        reads_line(assemble(lines, token_revocation_prover_layout()), lines, "sub_root"@, 6, false),
        reads_line(assemble(lines, token_revocation_prover_layout()), lines, "ID_A"@, 7, true),
        reads_line(assemble(lines, token_revocation_prover_layout()), lines, "direction_root"@, 8, true),
        reads_line(assemble(lines, token_revocation_prover_layout()), lines, "auth_path_root"@, 9, true),
        reads_line(assemble(lines, token_revocation_prover_layout()), lines, "root"@, 10, false),
{
    lemma_input_names();
    reveal_strlit("ID_A");
    reveal_strlit("auth_path_left");
    reveal_strlit("auth_path_right");
    reveal_strlit("auth_path_root");
    reveal_strlit("direction_left");
    reveal_strlit("direction_right");
    reveal_strlit("direction_root");
    reveal_strlit("left_leaf");
    reveal_strlit("right_leaf");
    reveal_strlit("root");
    reveal_strlit("sub_root");
    let p = token_revocation_prover_layout();
    assert(dotless_names(p));
    assert forall|j2: int| 0 < j2 < p.len() implies (#[trigger] p[j2]).name@ != p[0].name@ by {
        if j2 == 1 {
        } else if j2 == 2 {
        } else if j2 == 3 {
        } else if j2 == 4 {
        } else if j2 == 5 {
        } else if j2 == 6 {
        } else if j2 == 7 {
        } else if j2 == 8 {
        } else if j2 == 9 {
        } else if j2 == 10 {
        }
    }
    lemma_assemble_reads_last(lines, p, 0);
    assert forall|j2: int| 1 < j2 < p.len() implies (#[trigger] p[j2]).name@ != p[1].name@ by {
        if j2 == 2 {
            assert("auth_path_left"@[0] != "direction_left"@[0]);
        } else if j2 == 3 {
        } else if j2 == 4 {
        } else if j2 == 5 {
        } else if j2 == 6 {
        } else if j2 == 7 {
        } else if j2 == 8 {
            assert("direction_root"@[10] != "direction_left"@[10]);
        } else if j2 == 9 {
            assert("auth_path_root"@[0] != "direction_left"@[0]);
        } else if j2 == 10 {
        }
    }
    lemma_assemble_reads_last(lines, p, 1);
    assert forall|j2: int| 2 < j2 < p.len() implies (#[trigger] p[j2]).name@ != p[2].name@ by {
        if j2 == 3 {
        } else if j2 == 4 {
        } else if j2 == 5 {
        } else if j2 == 6 {
        } else if j2 == 7 {
        } else if j2 == 8 {
            assert("direction_root"@[0] != "auth_path_left"@[0]);
        } else if j2 == 9 {
            assert("auth_path_root"@[10] != "auth_path_left"@[10]);
        } else if j2 == 10 {
        }
    }
    lemma_assemble_reads_last(lines, p, 2);
    assert forall|j2: int| 3 < j2 < p.len() implies (#[trigger] p[j2]).name@ != p[3].name@ by {
        if j2 == 4 {
        } else if j2 == 5 {
        } else if j2 == 6 {
        } else if j2 == 7 {
        } else if j2 == 8 {
        } else if j2 == 9 {
        } else if j2 == 10 {
        }
    }
    lemma_assemble_reads_last(lines, p, 3);
    assert forall|j2: int| 4 < j2 < p.len() implies (#[trigger] p[j2]).name@ != p[4].name@ by {
        if j2 == 5 {
            assert("auth_path_right"@[0] != "direction_right"@[0]);
        } else if j2 == 6 {
        } else if j2 == 7 {
        } else if j2 == 8 {
        } else if j2 == 9 {
        } else if j2 == 10 {
        }
    }
    lemma_assemble_reads_last(lines, p, 4);
    assert forall|j2: int| 5 < j2 < p.len() implies (#[trigger] p[j2]).name@ != p[5].name@ by {
        if j2 == 6 {
        } else if j2 == 7 {
        } else if j2 == 8 {
        } else if j2 == 9 {
        } else if j2 == 10 {
        }
    }
    lemma_assemble_reads_last(lines, p, 5);
    assert forall|j2: int| 6 < j2 < p.len() implies (#[trigger] p[j2]).name@ != p[6].name@ by {
        if j2 == 7 {
        } else if j2 == 8 {
        } else if j2 == 9 {
        } else if j2 == 10 {
        }
    }
    lemma_assemble_reads_last(lines, p, 6);
    assert forall|j2: int| 7 < j2 < p.len() implies (#[trigger] p[j2]).name@ != p[7].name@ by {
        if j2 == 8 {
        } else if j2 == 9 {
        } else if j2 == 10 {
            assert("root"@[0] != "ID_A"@[0]);
        }
    }
    lemma_assemble_reads_last(lines, p, 7);
    assert forall|j2: int| 8 < j2 < p.len() implies (#[trigger] p[j2]).name@ != p[8].name@ by {
        if j2 == 9 {
            assert("auth_path_root"@[0] != "direction_root"@[0]);
        } else if j2 == 10 {
        }
    }
    lemma_assemble_reads_last(lines, p, 8);
    assert forall|j2: int| 9 < j2 < p.len() implies (#[trigger] p[j2]).name@ != p[9].name@ by {
        if j2 == 10 {
        }
    }
    lemma_assemble_reads_last(lines, p, 9);
    lemma_assemble_reads_last(lines, p, 10);
}

proof fn lemma_reads_token_revocation_verifier_layout(lines: Seq<Seq<char>>)
    ensures
        reads_line(assemble(lines, token_revocation_verifier_layout()), lines, "root"@, 10, false),
{
    lemma_input_names();
    reveal_strlit("root");
    let p = token_revocation_verifier_layout();
    assert(dotless_names(p));
    lemma_assemble_reads_last(lines, p, 0);
}

/// Each input of the SHA-256 token derivation is read from its own fixed line of the input file
/// (item `i` of a bracketed line at `name.i`, a scalar line whole at
/// `name`). The prover reads N_ID_A from line 1, salt from line 2, EM from line 3, r from line 4, blinder from line 5, blinded from line 6, ID_B from line 7, N_H from line 8, H_r from line 9, H from line 10, N_old_token from line 11, old_token from line 12, left_leaf from line 13, direction_left from line 14, auth_path_left from line 15, right_leaf from line 16, direction_right from line 17, auth_path_right from line 18, sub_root from line 19, ID_A from line 20, direction_root from line 21, auth_path_root from line 22, root from line 23.
/// The verifier reads blinded from line 6, H from line 10, old_token from line 12, root from line 23.
pub proof fn lemma_pcs_sha_fixed_lines(lines: Seq<Seq<char>>, rand: nat, consts: PoseidonConstants)
    ensures
        reads_line(prover_input_map(ComputeType::PcsSha, lines, rand, consts), lines, "N_ID_A"@, 1, true),
        reads_line(prover_input_map(ComputeType::PcsSha, lines, rand, consts), lines, "salt"@, 2, true),
        reads_line(prover_input_map(ComputeType::PcsSha, lines, rand, consts), lines, "EM"@, 3, true),
        reads_line(prover_input_map(ComputeType::PcsSha, lines, rand, consts), lines, "r"@, 4, true),
        reads_line(prover_input_map(ComputeType::PcsSha, lines, rand, consts), lines, "blinder"@, 5, true),
        reads_line(prover_input_map(ComputeType::PcsSha, lines, rand, consts), lines, "blinded"@, 6, true),
        reads_line(prover_input_map(ComputeType::PcsSha, lines, rand, consts), lines, "ID_B"@, 7, true),
        reads_line(prover_input_map(ComputeType::PcsSha, lines, rand, consts), lines, "N_H"@, 8, true),
        reads_line(prover_input_map(ComputeType::PcsSha, lines, rand, consts), lines, "H_r"@, 9, false),
        reads_line(prover_input_map(ComputeType::PcsSha, lines, rand, consts), lines, "H"@, 10, true),
        reads_line(prover_input_map(ComputeType::PcsSha, lines, rand, consts), lines, "N_old_token"@, 11, true),
        reads_line(prover_input_map(ComputeType::PcsSha, lines, rand, consts), lines, "old_token"@, 12, true),
        reads_line(prover_input_map(ComputeType::PcsSha, lines, rand, consts), lines, "left_leaf"@, 13, false),
        reads_line(prover_input_map(ComputeType::PcsSha, lines, rand, consts), lines, "direction_left"@, 14, true),
        reads_line(prover_input_map(ComputeType::PcsSha, lines, rand, consts), lines, "auth_path_left"@, 15, true),
        reads_line(prover_input_map(ComputeType::PcsSha, lines, rand, consts), lines, "right_leaf"@, 16, false),
        reads_line(prover_input_map(ComputeType::PcsSha, lines, rand, consts), lines, "direction_right"@, 17, true),
        reads_line(prover_input_map(ComputeType::PcsSha, lines, rand, consts), lines, "auth_path_right"@, 18, true),
        reads_line(prover_input_map(ComputeType::PcsSha, lines, rand, consts), lines, "sub_root"@, 19, false),
        reads_line(prover_input_map(ComputeType::PcsSha, lines, rand, consts), lines, "ID_A"@, 20, true),
        reads_line(prover_input_map(ComputeType::PcsSha, lines, rand, consts), lines, "direction_root"@, 21, true),
        reads_line(prover_input_map(ComputeType::PcsSha, lines, rand, consts), lines, "auth_path_root"@, 22, true),
        reads_line(prover_input_map(ComputeType::PcsSha, lines, rand, consts), lines, "root"@, 23, false),
        reads_line(verifier_input_map(ComputeType::PcsSha, lines, rand, consts), lines, "blinded"@, 6, true),
        reads_line(verifier_input_map(ComputeType::PcsSha, lines, rand, consts), lines, "H"@, 10, true),
        reads_line(verifier_input_map(ComputeType::PcsSha, lines, rand, consts), lines, "old_token"@, 12, true),
        reads_line(verifier_input_map(ComputeType::PcsSha, lines, rand, consts), lines, "root"@, 23, false),
{
    lemma_reads_pcs_sha_prover_layout(lines);
    lemma_reads_pcs_sha_verifier_layout(lines);
}

/// Each input of the Poseidon token derivation is read from its own fixed line of the input file
/// (item `i` of a bracketed line at `name.i`, a scalar line whole at
/// `name`). The prover reads N_ID_A from line 1, salt from line 2, EM from line 3, r from line 4, blinder from line 5, blinded from line 6, ID_B from line 7, N_H from line 8, H_r from line 9, H from line 10, N_old_token from line 11, old_token from line 12, left_leaf from line 13, direction_left from line 14, auth_path_left from line 15, right_leaf from line 16, direction_right from line 17, auth_path_right from line 18, sub_root from line 19, ID_A from line 20, direction_root from line 21, auth_path_root from line 22, root from line 23.
/// The verifier reads blinded from line 6, H from line 10, old_token from line 12, root from line 23.
pub proof fn lemma_pcs_poseidon_fixed_lines(lines: Seq<Seq<char>>, rand: nat, consts: PoseidonConstants)
    ensures
        reads_line(prover_input_map(ComputeType::PcsPoseidon, lines, rand, consts), lines, "N_ID_A"@, 1, true),
        reads_line(prover_input_map(ComputeType::PcsPoseidon, lines, rand, consts), lines, "salt"@, 2, true),
        reads_line(prover_input_map(ComputeType::PcsPoseidon, lines, rand, consts), lines, "EM"@, 3, true),
        reads_line(prover_input_map(ComputeType::PcsPoseidon, lines, rand, consts), lines, "r"@, 4, true),
        reads_line(prover_input_map(ComputeType::PcsPoseidon, lines, rand, consts), lines, "blinder"@, 5, true),
        reads_line(prover_input_map(ComputeType::PcsPoseidon, lines, rand, consts), lines, "blinded"@, 6, true),
        reads_line(prover_input_map(ComputeType::PcsPoseidon, lines, rand, consts), lines, "ID_B"@, 7, true),
        reads_line(prover_input_map(ComputeType::PcsPoseidon, lines, rand, consts), lines, "N_H"@, 8, true),
        reads_line(prover_input_map(ComputeType::PcsPoseidon, lines, rand, consts), lines, "H_r"@, 9, false),
        reads_line(prover_input_map(ComputeType::PcsPoseidon, lines, rand, consts), lines, "H"@, 10, false),
        reads_line(prover_input_map(ComputeType::PcsPoseidon, lines, rand, consts), lines, "N_old_token"@, 11, true),
        reads_line(prover_input_map(ComputeType::PcsPoseidon, lines, rand, consts), lines, "old_token"@, 12, false),
        reads_line(prover_input_map(ComputeType::PcsPoseidon, lines, rand, consts), lines, "left_leaf"@, 13, false),
        reads_line(prover_input_map(ComputeType::PcsPoseidon, lines, rand, consts), lines, "direction_left"@, 14, true),
        reads_line(prover_input_map(ComputeType::PcsPoseidon, lines, rand, consts), lines, "auth_path_left"@, 15, true),
        reads_line(prover_input_map(ComputeType::PcsPoseidon, lines, rand, consts), lines, "right_leaf"@, 16, false),
        reads_line(prover_input_map(ComputeType::PcsPoseidon, lines, rand, consts), lines, "direction_right"@, 17, true),
        reads_line(prover_input_map(ComputeType::PcsPoseidon, lines, rand, consts), lines, "auth_path_right"@, 18, true),
        reads_line(prover_input_map(ComputeType::PcsPoseidon, lines, rand, consts), lines, "sub_root"@, 19, false),
        reads_line(prover_input_map(ComputeType::PcsPoseidon, lines, rand, consts), lines, "ID_A"@, 20, true),
        reads_line(prover_input_map(ComputeType::PcsPoseidon, lines, rand, consts), lines, "direction_root"@, 21, true),
        reads_line(prover_input_map(ComputeType::PcsPoseidon, lines, rand, consts), lines, "auth_path_root"@, 22, true),
        reads_line(prover_input_map(ComputeType::PcsPoseidon, lines, rand, consts), lines, "root"@, 23, false),
        reads_line(verifier_input_map(ComputeType::PcsPoseidon, lines, rand, consts), lines, "blinded"@, 6, true),
        reads_line(verifier_input_map(ComputeType::PcsPoseidon, lines, rand, consts), lines, "H"@, 10, false),
        reads_line(verifier_input_map(ComputeType::PcsPoseidon, lines, rand, consts), lines, "old_token"@, 12, false),
        reads_line(verifier_input_map(ComputeType::PcsPoseidon, lines, rand, consts), lines, "root"@, 23, false),
{
    lemma_reads_pcs_poseidon_prover_layout(lines);
    lemma_reads_pcs_poseidon_verifier_layout(lines);
}

/// Each input of the Poseidon preprocessing is read from its own fixed line of the input file
/// (item `i` of a bracketed line at `name.i`, a scalar line whole at
/// `name`). The prover reads ID_A from line 0, N_ID_A from line 1, salt from line 2, EM from line 3, r from line 4, blinder from line 5, blinded from line 6, ID_B from line 7, N_H from line 8, H_r from line 9, H from line 10, N_old_token from line 11, old_token from line 12.
/// The verifier reads blinded from line 6, H from line 10, old_token from line 12.
pub proof fn lemma_pcs_poseidon_preprocess_fixed_lines(lines: Seq<Seq<char>>, rand: nat, consts: PoseidonConstants)
    ensures
        reads_line(prover_input_map(ComputeType::PcsPoseidonPreprocess, lines, rand, consts), lines, "ID_A"@, 0, true),
        reads_line(prover_input_map(ComputeType::PcsPoseidonPreprocess, lines, rand, consts), lines, "N_ID_A"@, 1, true),
        reads_line(prover_input_map(ComputeType::PcsPoseidonPreprocess, lines, rand, consts), lines, "salt"@, 2, true),
        reads_line(prover_input_map(ComputeType::PcsPoseidonPreprocess, lines, rand, consts), lines, "EM"@, 3, true),
        reads_line(prover_input_map(ComputeType::PcsPoseidonPreprocess, lines, rand, consts), lines, "r"@, 4, true),
        reads_line(prover_input_map(ComputeType::PcsPoseidonPreprocess, lines, rand, consts), lines, "blinder"@, 5, true),
        reads_line(prover_input_map(ComputeType::PcsPoseidonPreprocess, lines, rand, consts), lines, "blinded"@, 6, true),
        reads_line(prover_input_map(ComputeType::PcsPoseidonPreprocess, lines, rand, consts), lines, "ID_B"@, 7, true),
        reads_line(prover_input_map(ComputeType::PcsPoseidonPreprocess, lines, rand, consts), lines, "N_H"@, 8, true),
        reads_line(prover_input_map(ComputeType::PcsPoseidonPreprocess, lines, rand, consts), lines, "H_r"@, 9, false),
        reads_line(prover_input_map(ComputeType::PcsPoseidonPreprocess, lines, rand, consts), lines, "H"@, 10, false),
        reads_line(prover_input_map(ComputeType::PcsPoseidonPreprocess, lines, rand, consts), lines, "N_old_token"@, 11, true),
        reads_line(prover_input_map(ComputeType::PcsPoseidonPreprocess, lines, rand, consts), lines, "old_token"@, 12, false),
        reads_line(verifier_input_map(ComputeType::PcsPoseidonPreprocess, lines, rand, consts), lines, "blinded"@, 6, true),
        reads_line(verifier_input_map(ComputeType::PcsPoseidonPreprocess, lines, rand, consts), lines, "H"@, 10, false),
        reads_line(verifier_input_map(ComputeType::PcsPoseidonPreprocess, lines, rand, consts), lines, "old_token"@, 12, false),
{
    lemma_reads_pcs_poseidon_preprocess_prover_layout(lines);
    lemma_reads_pcs_preprocess_verifier_layout(lines);
    lemma_input_names();
    reveal_strlit("commit_rand");
    reveal_strlit("commit_ID_A");
    let ap = assemble(lines, pcs_poseidon_preprocess_prover_layout());
    let av = assemble(lines, pcs_preprocess_verifier_layout());
    let cid = FieldInput::Number(id_commitment(lines[0], rand, consts) as nat);
    reveal_strlit("ID_A");
    lemma_reads_line_insert(ap, lines, "ID_A"@, 0, true, "commit_rand"@, FieldInput::Number(rand));
    lemma_reads_line_insert(ap.insert("commit_rand"@, FieldInput::Number(rand)), lines, "ID_A"@, 0, true, "commit_ID_A"@, cid);
    reveal_strlit("N_ID_A");
    lemma_reads_line_insert(ap, lines, "N_ID_A"@, 1, true, "commit_rand"@, FieldInput::Number(rand));
    lemma_reads_line_insert(ap.insert("commit_rand"@, FieldInput::Number(rand)), lines, "N_ID_A"@, 1, true, "commit_ID_A"@, cid);
    reveal_strlit("salt");
    lemma_reads_line_insert(ap, lines, "salt"@, 2, true, "commit_rand"@, FieldInput::Number(rand));
    lemma_reads_line_insert(ap.insert("commit_rand"@, FieldInput::Number(rand)), lines, "salt"@, 2, true, "commit_ID_A"@, cid);
    reveal_strlit("EM");
    lemma_reads_line_insert(ap, lines, "EM"@, 3, true, "commit_rand"@, FieldInput::Number(rand));
    lemma_reads_line_insert(ap.insert("commit_rand"@, FieldInput::Number(rand)), lines, "EM"@, 3, true, "commit_ID_A"@, cid);
    reveal_strlit("r");
    lemma_reads_line_insert(ap, lines, "r"@, 4, true, "commit_rand"@, FieldInput::Number(rand));
    lemma_reads_line_insert(ap.insert("commit_rand"@, FieldInput::Number(rand)), lines, "r"@, 4, true, "commit_ID_A"@, cid);
    reveal_strlit("blinder");
    lemma_reads_line_insert(ap, lines, "blinder"@, 5, true, "commit_rand"@, FieldInput::Number(rand));
    lemma_reads_line_insert(ap.insert("commit_rand"@, FieldInput::Number(rand)), lines, "blinder"@, 5, true, "commit_ID_A"@, cid);
    reveal_strlit("blinded");
    lemma_reads_line_insert(ap, lines, "blinded"@, 6, true, "commit_rand"@, FieldInput::Number(rand));
    lemma_reads_line_insert(ap.insert("commit_rand"@, FieldInput::Number(rand)), lines, "blinded"@, 6, true, "commit_ID_A"@, cid);
    reveal_strlit("ID_B");
    lemma_reads_line_insert(ap, lines, "ID_B"@, 7, true, "commit_rand"@, FieldInput::Number(rand));
    lemma_reads_line_insert(ap.insert("commit_rand"@, FieldInput::Number(rand)), lines, "ID_B"@, 7, true, "commit_ID_A"@, cid);
    reveal_strlit("N_H");
    lemma_reads_line_insert(ap, lines, "N_H"@, 8, true, "commit_rand"@, FieldInput::Number(rand));
    lemma_reads_line_insert(ap.insert("commit_rand"@, FieldInput::Number(rand)), lines, "N_H"@, 8, true, "commit_ID_A"@, cid);
    reveal_strlit("H_r");
    lemma_reads_line_insert(ap, lines, "H_r"@, 9, false, "commit_rand"@, FieldInput::Number(rand));
    lemma_reads_line_insert(ap.insert("commit_rand"@, FieldInput::Number(rand)), lines, "H_r"@, 9, false, "commit_ID_A"@, cid);
    reveal_strlit("H");
    lemma_reads_line_insert(ap, lines, "H"@, 10, false, "commit_rand"@, FieldInput::Number(rand));
    lemma_reads_line_insert(ap.insert("commit_rand"@, FieldInput::Number(rand)), lines, "H"@, 10, false, "commit_ID_A"@, cid);
    reveal_strlit("N_old_token");
    assert("N_old_token"@[0] != "commit_rand"@[0]);
    assert("N_old_token"@[0] != "commit_ID_A"@[0]);
    lemma_reads_line_insert(ap, lines, "N_old_token"@, 11, true, "commit_rand"@, FieldInput::Number(rand));
    lemma_reads_line_insert(ap.insert("commit_rand"@, FieldInput::Number(rand)), lines, "N_old_token"@, 11, true, "commit_ID_A"@, cid);
    reveal_strlit("old_token");
    lemma_reads_line_insert(ap, lines, "old_token"@, 12, false, "commit_rand"@, FieldInput::Number(rand));
    lemma_reads_line_insert(ap.insert("commit_rand"@, FieldInput::Number(rand)), lines, "old_token"@, 12, false, "commit_ID_A"@, cid);
    reveal_strlit("blinded");
    lemma_reads_line_insert(av, lines, "blinded"@, 6, true, "commit_ID_A"@, cid);
    reveal_strlit("H");
    lemma_reads_line_insert(av, lines, "H"@, 10, false, "commit_ID_A"@, cid);
    reveal_strlit("old_token");
    lemma_reads_line_insert(av, lines, "old_token"@, 12, false, "commit_ID_A"@, cid);
}

/// Each input of the SHA-256 preprocessing is read from its own fixed line of the input file
/// (item `i` of a bracketed line at `name.i`, a scalar line whole at
/// `name`). The prover reads ID_A from line 0, N_ID_A from line 1, salt from line 2, EM from line 3, blinder from line 4, blinded from line 5, ID_B from line 6, N_H from line 7, H_r from line 8, H from line 9, N_old_token from line 10, old_token from line 11.
/// The verifier reads blinded from line 5, H from line 9, old_token from line 11.
pub proof fn lemma_pcs_sha_preprocess_fixed_lines(lines: Seq<Seq<char>>, rand: nat, consts: PoseidonConstants)
    ensures
        reads_line(prover_input_map(ComputeType::PcsShaPreprocess, lines, rand, consts), lines, "ID_A"@, 0, true),
        reads_line(prover_input_map(ComputeType::PcsShaPreprocess, lines, rand, consts), lines, "N_ID_A"@, 1, true),
        reads_line(prover_input_map(ComputeType::PcsShaPreprocess, lines, rand, consts), lines, "salt"@, 2, true),
        reads_line(prover_input_map(ComputeType::PcsShaPreprocess, lines, rand, consts), lines, "EM"@, 3, true),
        reads_line(prover_input_map(ComputeType::PcsShaPreprocess, lines, rand, consts), lines, "blinder"@, 4, true),
        reads_line(prover_input_map(ComputeType::PcsShaPreprocess, lines, rand, consts), lines, "blinded"@, 5, true),
        reads_line(prover_input_map(ComputeType::PcsShaPreprocess, lines, rand, consts), lines, "ID_B"@, 6, true),
        reads_line(prover_input_map(ComputeType::PcsShaPreprocess, lines, rand, consts), lines, "N_H"@, 7, true),
        reads_line(prover_input_map(ComputeType::PcsShaPreprocess, lines, rand, consts), lines, "H_r"@, 8, false),
        reads_line(prover_input_map(ComputeType::PcsShaPreprocess, lines, rand, consts), lines, "H"@, 9, true),
        reads_line(prover_input_map(ComputeType::PcsShaPreprocess, lines, rand, consts), lines, "N_old_token"@, 10, true),
        reads_line(prover_input_map(ComputeType::PcsShaPreprocess, lines, rand, consts), lines, "old_token"@, 11, true),
        reads_line(verifier_input_map(ComputeType::PcsShaPreprocess, lines, rand, consts), lines, "blinded"@, 5, true),
        reads_line(verifier_input_map(ComputeType::PcsShaPreprocess, lines, rand, consts), lines, "H"@, 9, true),
        reads_line(verifier_input_map(ComputeType::PcsShaPreprocess, lines, rand, consts), lines, "old_token"@, 11, true),
{
    lemma_reads_sha_preprocess_prover_layout(lines);
    lemma_reads_sha_preprocess_verifier_layout(lines);
    lemma_input_names();
    reveal_strlit("commit_rand");
    reveal_strlit("commit_ID_A");
    let ap = assemble(lines, sha_preprocess_prover_layout());
    let av = assemble(lines, sha_preprocess_verifier_layout());
    let cid = FieldInput::Number(id_commitment(lines[0], rand, consts) as nat);
    reveal_strlit("ID_A");
    lemma_reads_line_insert(ap, lines, "ID_A"@, 0, true, "commit_rand"@, FieldInput::Number(rand));
    lemma_reads_line_insert(ap.insert("commit_rand"@, FieldInput::Number(rand)), lines, "ID_A"@, 0, true, "commit_ID_A"@, cid);
    reveal_strlit("N_ID_A");
    lemma_reads_line_insert(ap, lines, "N_ID_A"@, 1, true, "commit_rand"@, FieldInput::Number(rand));
    lemma_reads_line_insert(ap.insert("commit_rand"@, FieldInput::Number(rand)), lines, "N_ID_A"@, 1, true, "commit_ID_A"@, cid);
    reveal_strlit("salt");
    lemma_reads_line_insert(ap, lines, "salt"@, 2, true, "commit_rand"@, FieldInput::Number(rand));
    lemma_reads_line_insert(ap.insert("commit_rand"@, FieldInput::Number(rand)), lines, "salt"@, 2, true, "commit_ID_A"@, cid);
    reveal_strlit("EM");
    lemma_reads_line_insert(ap, lines, "EM"@, 3, true, "commit_rand"@, FieldInput::Number(rand));
    lemma_reads_line_insert(ap.insert("commit_rand"@, FieldInput::Number(rand)), lines, "EM"@, 3, true, "commit_ID_A"@, cid);
    reveal_strlit("blinder");
    lemma_reads_line_insert(ap, lines, "blinder"@, 4, true, "commit_rand"@, FieldInput::Number(rand));
    lemma_reads_line_insert(ap.insert("commit_rand"@, FieldInput::Number(rand)), lines, "blinder"@, 4, true, "commit_ID_A"@, cid);
    reveal_strlit("blinded");
    lemma_reads_line_insert(ap, lines, "blinded"@, 5, true, "commit_rand"@, FieldInput::Number(rand));
    lemma_reads_line_insert(ap.insert("commit_rand"@, FieldInput::Number(rand)), lines, "blinded"@, 5, true, "commit_ID_A"@, cid);
    reveal_strlit("ID_B");
    lemma_reads_line_insert(ap, lines, "ID_B"@, 6, true, "commit_rand"@, FieldInput::Number(rand));
    lemma_reads_line_insert(ap.insert("commit_rand"@, FieldInput::Number(rand)), lines, "ID_B"@, 6, true, "commit_ID_A"@, cid);
    reveal_strlit("N_H");
    lemma_reads_line_insert(ap, lines, "N_H"@, 7, true, "commit_rand"@, FieldInput::Number(rand));
    lemma_reads_line_insert(ap.insert("commit_rand"@, FieldInput::Number(rand)), lines, "N_H"@, 7, true, "commit_ID_A"@, cid);
    reveal_strlit("H_r");
    lemma_reads_line_insert(ap, lines, "H_r"@, 8, false, "commit_rand"@, FieldInput::Number(rand));
    lemma_reads_line_insert(ap.insert("commit_rand"@, FieldInput::Number(rand)), lines, "H_r"@, 8, false, "commit_ID_A"@, cid);
    reveal_strlit("H");
    lemma_reads_line_insert(ap, lines, "H"@, 9, true, "commit_rand"@, FieldInput::Number(rand));
    lemma_reads_line_insert(ap.insert("commit_rand"@, FieldInput::Number(rand)), lines, "H"@, 9, true, "commit_ID_A"@, cid);
    reveal_strlit("N_old_token");
    assert("N_old_token"@[0] != "commit_rand"@[0]);
    assert("N_old_token"@[0] != "commit_ID_A"@[0]);
    lemma_reads_line_insert(ap, lines, "N_old_token"@, 10, true, "commit_rand"@, FieldInput::Number(rand));
    lemma_reads_line_insert(ap.insert("commit_rand"@, FieldInput::Number(rand)), lines, "N_old_token"@, 10, true, "commit_ID_A"@, cid);
    reveal_strlit("old_token");
    lemma_reads_line_insert(ap, lines, "old_token"@, 11, true, "commit_rand"@, FieldInput::Number(rand));
    lemma_reads_line_insert(ap.insert("commit_rand"@, FieldInput::Number(rand)), lines, "old_token"@, 11, true, "commit_ID_A"@, cid);
    reveal_strlit("blinded");
    lemma_reads_line_insert(av, lines, "blinded"@, 5, true, "commit_ID_A"@, cid);
    reveal_strlit("H");
    lemma_reads_line_insert(av, lines, "H"@, 9, true, "commit_ID_A"@, cid);
    reveal_strlit("old_token");
    lemma_reads_line_insert(av, lines, "old_token"@, 11, true, "commit_ID_A"@, cid);
}

/// Each input of the non-revocation proof is read from its own fixed line of the input file
/// (item `i` of a bracketed line at `name.i`, a scalar line whole at
/// `name`). The prover reads left_leaf from line 0, direction_left from line 1, auth_path_left from line 2, right_leaf from line 3, direction_right from line 4, auth_path_right from line 5, sub_root from line 6, ID_A from line 7, direction_root from line 8, auth_path_root from line 9, root from line 10.
/// The verifier reads root from line 10.
pub proof fn lemma_non_member_fixed_lines(lines: Seq<Seq<char>>, rand: nat, consts: PoseidonConstants)
    ensures
        reads_line(prover_input_map(ComputeType::NonMember, lines, rand, consts), lines, "left_leaf"@, 0, false),
        reads_line(prover_input_map(ComputeType::NonMember, lines, rand, consts), lines, "direction_left"@, 1, true),
        reads_line(prover_input_map(ComputeType::NonMember, lines, rand, consts), lines, "auth_path_left"@, 2, true),
        reads_line(prover_input_map(ComputeType::NonMember, lines, rand, consts), lines, "right_leaf"@, 3, false),
        reads_line(prover_input_map(ComputeType::NonMember, lines, rand, consts), lines, "direction_right"@, 4, true),
        reads_line(prover_input_map(ComputeType::NonMember, lines, rand, consts), lines, "auth_path_right"@, 5, true),
        reads_line(prover_input_map(ComputeType::NonMember, lines, rand, consts), lines, "sub_root"@, 6, false),
        reads_line(prover_input_map(ComputeType::NonMember, lines, rand, consts), lines, "ID_A"@, 7, true),
        reads_line(prover_input_map(ComputeType::NonMember, lines, rand, consts), lines, "direction_root"@, 8, true),
        reads_line(prover_input_map(ComputeType::NonMember, lines, rand, consts), lines, "auth_path_root"@, 9, true),
        reads_line(prover_input_map(ComputeType::NonMember, lines, rand, consts), lines, "root"@, 10, false),
        reads_line(verifier_input_map(ComputeType::NonMember, lines, rand, consts), lines, "root"@, 10, false),
{
    lemma_reads_token_revocation_prover_layout(lines);
    lemma_reads_token_revocation_verifier_layout(lines);
    lemma_input_names();
    reveal_strlit("commit_rand");
    reveal_strlit("commit_ID_A");
    let ap = assemble(lines, token_revocation_prover_layout());
    let av = assemble(lines, token_revocation_verifier_layout());
    let cid = FieldInput::Number(id_commitment(lines[7], rand, consts) as nat);
    reveal_strlit("left_leaf");
    lemma_reads_line_insert(ap, lines, "left_leaf"@, 0, false, "commit_rand"@, FieldInput::Number(rand));
    lemma_reads_line_insert(ap.insert("commit_rand"@, FieldInput::Number(rand)), lines, "left_leaf"@, 0, false, "commit_ID_A"@, cid);
    reveal_strlit("direction_left");
    lemma_reads_line_insert(ap, lines, "direction_left"@, 1, true, "commit_rand"@, FieldInput::Number(rand));
    lemma_reads_line_insert(ap.insert("commit_rand"@, FieldInput::Number(rand)), lines, "direction_left"@, 1, true, "commit_ID_A"@, cid);
    reveal_strlit("auth_path_left");
    lemma_reads_line_insert(ap, lines, "auth_path_left"@, 2, true, "commit_rand"@, FieldInput::Number(rand));
    lemma_reads_line_insert(ap.insert("commit_rand"@, FieldInput::Number(rand)), lines, "auth_path_left"@, 2, true, "commit_ID_A"@, cid);
    reveal_strlit("right_leaf");
    lemma_reads_line_insert(ap, lines, "right_leaf"@, 3, false, "commit_rand"@, FieldInput::Number(rand));
    lemma_reads_line_insert(ap.insert("commit_rand"@, FieldInput::Number(rand)), lines, "right_leaf"@, 3, false, "commit_ID_A"@, cid);
    reveal_strlit("direction_right");
    lemma_reads_line_insert(ap, lines, "direction_right"@, 4, true, "commit_rand"@, FieldInput::Number(rand));
    lemma_reads_line_insert(ap.insert("commit_rand"@, FieldInput::Number(rand)), lines, "direction_right"@, 4, true, "commit_ID_A"@, cid);
    reveal_strlit("auth_path_right");
    lemma_reads_line_insert(ap, lines, "auth_path_right"@, 5, true, "commit_rand"@, FieldInput::Number(rand));
    lemma_reads_line_insert(ap.insert("commit_rand"@, FieldInput::Number(rand)), lines, "auth_path_right"@, 5, true, "commit_ID_A"@, cid);
    reveal_strlit("sub_root");
    lemma_reads_line_insert(ap, lines, "sub_root"@, 6, false, "commit_rand"@, FieldInput::Number(rand));
    lemma_reads_line_insert(ap.insert("commit_rand"@, FieldInput::Number(rand)), lines, "sub_root"@, 6, false, "commit_ID_A"@, cid);
    reveal_strlit("ID_A");
    lemma_reads_line_insert(ap, lines, "ID_A"@, 7, true, "commit_rand"@, FieldInput::Number(rand));
    lemma_reads_line_insert(ap.insert("commit_rand"@, FieldInput::Number(rand)), lines, "ID_A"@, 7, true, "commit_ID_A"@, cid);
    reveal_strlit("direction_root");
    lemma_reads_line_insert(ap, lines, "direction_root"@, 8, true, "commit_rand"@, FieldInput::Number(rand));
    lemma_reads_line_insert(ap.insert("commit_rand"@, FieldInput::Number(rand)), lines, "direction_root"@, 8, true, "commit_ID_A"@, cid);
    reveal_strlit("auth_path_root");
    lemma_reads_line_insert(ap, lines, "auth_path_root"@, 9, true, "commit_rand"@, FieldInput::Number(rand));
    lemma_reads_line_insert(ap.insert("commit_rand"@, FieldInput::Number(rand)), lines, "auth_path_root"@, 9, true, "commit_ID_A"@, cid);
    reveal_strlit("root");
    lemma_reads_line_insert(ap, lines, "root"@, 10, false, "commit_rand"@, FieldInput::Number(rand));
    lemma_reads_line_insert(ap.insert("commit_rand"@, FieldInput::Number(rand)), lines, "root"@, 10, false, "commit_ID_A"@, cid);
    reveal_strlit("root");
    lemma_reads_line_insert(av, lines, "root"@, 10, false, "commit_ID_A"@, cid);
}

} // verus!
