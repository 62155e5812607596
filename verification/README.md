# paas_zkp

Inputs of the zero-knowledge circuits of a post-compromise token service:
Poseidon hashing over the BLS12-381 scalar field, byte packing, Poseidon
commitments, the prover and verifier inputs of the token-derivation and
non-revocation circuits, and the input file of the Poseidon token derivation.
The library in `src/` is verified with Verus; `app/` holds the program that
writes the input file and the file handling around the library.

Modules of `src/`:

- `bignat`: natural numbers of any size (bits), with addition, multiplication,
  shifts, division by a machine word and decimal text; integers as a sign
  beside a natural number.
- `field`: residues modulo the field prime and their arithmetic.
- `poseidon`: the Poseidon permutation and hash, with its constants.
- `constants`: reading the round constants and MDS matrices from the lines of
  a ZoKrates constants file.
- `packing`: packing bytes into field elements.
- `commitment`: Poseidon commitments to scalars, points and exponents.
- `ec`: points and scalars of P-256 held as their SEC1 encodings; the group
  operations come from the `p256` crate.
- `input_map`: the named inputs handed to a circuit.
- `pcs`: reading the inputs of the token-derivation and non-revocation
  circuits from the lines of their input files.
- `create_input`: choosing the reader for a circuit, and the input of the
  scalar-multiplication circuit.
- `token_input`: the lines of the input file of the Poseidon token derivation.
- `sample_inputs`: inputs of the sample circuits and the Spartan benchmark.
- `text`: the string handling the readers need (trimming, splitting, integer
  literals).
