//! The edges of the proving backend (halo2 over the Pasta curves) that the
//! library drives itself: sizing and generating the setup parameters, and
//! turning the backend's verification result into a verdict.
use vstd::prelude::*;
use vstd::arithmetic::power2::{lemma2_to64, lemma_pow2_strictly_increases, pow2};
use vstd::bits::{lemma_u64_pow2_no_overflow, lemma_u64_shl_is_mul};
use halo2_proofs::pasta::{EqAffine, Fp};
use halo2_proofs::plonk::{verify_proof, Error, SingleVerifier, VerifyingKey};
use halo2_proofs::poly::commitment::Params;
use halo2_proofs::transcript::{Blake2bRead, Challenge255};
use crate::circuit::ROWS;

verus! {

/// The backend's setup parameters (`Params<EqAffine>`). Verus cannot declare
/// that type (its bound is a trait of `pasta_curves`), so the value is held here.
#[verifier::external_body]
pub struct SetupParams {
    pub backend: Params<EqAffine>,
}

/// The backend's verifying key (`VerifyingKey<EqAffine>`), held as `SetupParams` is.
#[verifier::external_body]
pub struct VerifierKey {
    pub backend: VerifyingKey<EqAffine>,
}

/// halo2's proving and verification error, carried without looking inside.
#[verifier::external_type_specification]
#[verifier::external_body]
pub struct ExError(Error);

/// The size exponent `k` that setup parameters were made for (`Params::k`).
pub uninterp spec fn params_exponent(p: SetupParams) -> u32;

/// The number of rows of the evaluation domain that a verifying key was derived for.
pub uninterp spec fn key_rows(vk: VerifierKey) -> nat;

/// Whether the backend's verifier accepts `proof` for the public input
/// `distance`, under `params` and `vk`. The verifier is deterministic: a
/// Blake2b transcript and no randomness.
pub uninterp spec fn backend_accepts(
    params: SetupParams,
    vk: VerifierKey,
    distance: u64,
    proof: Seq<u8>,
) -> bool;

/// Whether a backend error is one of reading the proof (`Error::Transcript`).
pub uninterp spec fn unreadable_proof(e: Error) -> bool;

/// Rows that the backend keeps for itself at the end of the domain: the
/// blinding rows (five, since no advice column is queried at more than two
/// rotations) and the row after them.
pub const RESERVED_ROWS: usize = 6;

/// The circuit-size exponent below which the circuit does not fit.
pub const MIN_K: u32 = 6;

/// The largest exponent the backend accepts.
pub const MAX_K: u32 = 31;

/// A domain of `2^k` rows holds the circuit's data rows and the reserved rows.
pub open spec fn rows_fit(k: nat) -> bool {
    pow2(k) >= ROWS + RESERVED_ROWS
}

/// Why no setup parameters were made.
#[derive(Clone, Copy, Debug, PartialEq, Eq, Structural)]
pub enum SetupError {
    /// `2^k` rows cannot hold the circuit.
    TooFewRows { k: u32 },
    /// The backend supports no `k` this large.
    TooLarge { k: u32 },
}

/// Relies on halo2_proofs' `Params::new`, which builds the commitment
/// parameters for `2^k` rows, stores `k`, and panics unless `k < 32`.
#[verifier::external_body]
fn new_params(k: u32) -> (r: SetupParams)
    requires
        k < 32,
    ensures
        params_exponent(r) == k,
{
    SetupParams { backend: Params::new(k) }
}

/// Relies on halo2_proofs' `Params::k`, which returns the stored `k`.
#[verifier::external_body]
fn params_k(params: &SetupParams) -> (r: u32)
    ensures
        r == params_exponent(*params),
{
    params.backend.k()
}

/// Relies on halo2_proofs' `VerifyingKey::get_domain` and
/// `EvaluationDomain::empty_lagrange`, a polynomial of one value per row of the domain.
#[verifier::external_body]
fn key_domain_rows(vk: &VerifierKey) -> (r: usize)
    ensures
        r == key_rows(*vk),
{
    vk.backend.get_domain().empty_lagrange().len()
}

/// `rows_fit(k)` holds exactly from `MIN_K` on.
pub proof fn lemma_min_k(k: nat)
    ensures
        rows_fit(k) <==> k >= MIN_K,
{
    lemma2_to64();
    if k > MIN_K {
        lemma_pow2_strictly_increases(MIN_K as nat, k);
    } else if k < 5 {
        lemma_pow2_strictly_increases(k, 5);
    }
}

/// Generates setup parameters for circuits of up to `2^k` rows. Fails when
/// `2^k` rows cannot hold the circuit, or when `k` is beyond what the backend takes.
pub fn setup(k: u32) -> (r: Result<SetupParams, SetupError>)
    ensures
        r is Ok <==> (rows_fit(k as nat) && k <= MAX_K),
        r matches Ok(p) ==> params_exponent(p) == k,
        r matches Err(SetupError::TooFewRows { k: k2 }) <==> !rows_fit(k as nat),
        r matches Err(SetupError::TooFewRows { k: k2 }) ==> k2 == k,
        r matches Err(SetupError::TooLarge { k: k2 }) <==> (rows_fit(k as nat) && k > MAX_K),
        r matches Err(SetupError::TooLarge { k: k2 }) ==> k2 == k,
{
    proof {
        lemma_min_k(k as nat);
    }
    if k < MIN_K {
        Err(SetupError::TooFewRows { k })
    } else if k > MAX_K {
        Err(SetupError::TooLarge { k })
    } else {
        Ok(new_params(k))
    }
}

/// Relies on halo2_proofs' `verify_proof`, run with a `SingleVerifier` on a
/// Blake2b transcript read from `proof`, with `distance` as the one public
/// input: `Ok` when the proof checks, the error it met otherwise. It panics
/// (in `EvaluationDomain::lagrange_from_vec`) unless the key's domain has the
/// parameters' `2^k` rows. An empty proof fails at its first read.
#[verifier::external_body]
fn backend_verify(
    params: &SetupParams,
    vk: &VerifierKey,
    distance: u64,
    proof: &[u8],
) -> (r: Result<(), Error>)
    requires
        pow2(params_exponent(*params) as nat) == key_rows(*vk),
    ensures
        r is Ok <==> backend_accepts(*params, *vk, distance, proof@),
        proof@.len() == 0 ==> r is Err,
{
    let (params, vk) = (&params.backend, &vk.backend);
    let instance = [Fp::from(distance)];
    let mut transcript = Blake2bRead::<_, EqAffine, Challenge255<_>>::init(proof);
    verify_proof(params, vk, SingleVerifier::new(params), &[&[&instance[..]]], &mut transcript)
}

/// Relies on halo2_proofs' `Error::Transcript`: the variant for a proof that
/// could not be read (too short, or a point or scalar out of encoding).
#[verifier::external_body]
fn is_transcript_error(e: &Error) -> (r: bool)
    ensures
        r == unreadable_proof(*e),
{
    matches!(e, Error::Transcript(_))
}

/// The outcome of checking a proof against a claimed distance.
#[derive(Clone, Copy, Debug, PartialEq, Eq, Structural)]
pub enum Verdict {
    /// The proof shows the claimed distance.
    Accepted,
    /// The proof was read, and does not show the claimed distance.
    Rejected,
    /// The proof bytes could not be read as a proof.
    Malformed,
}

/// The verdict that a backend verification result gives: `Ok` accepts, an
/// error in reading the proof is `Malformed`, any other error rejects.
pub fn verdict_of(result: &Result<(), Error>) -> (v: Verdict)
    ensures
        v == match result {
            Ok(()) => Verdict::Accepted,
            Err(e) => if unreadable_proof(*e) {
                Verdict::Malformed
            } else {
                Verdict::Rejected
            },
        },
{
    match result {
        Ok(()) => Verdict::Accepted,
        Err(e) => {
            if is_transcript_error(e) {
                Verdict::Malformed
            } else {
                Verdict::Rejected
            }
        },
    }
}

/// Setup parameters of `2^k` rows and a key whose domain has as many rows.
pub open spec fn sizes_match(params: SetupParams, vk: VerifierKey) -> bool {
    pow2(params_exponent(params) as nat) == key_rows(vk)
}

/// Whether the parameters and the key were made for domains of one size,
/// decided without overflow.
pub fn same_size(params: &SetupParams, vk: &VerifierKey) -> (r: bool)
    ensures
        r == sizes_match(*params, *vk),
{
    let k = params_k(params);
    let rows = key_domain_rows(vk);
    if k >= 64 {
        proof {
            lemma2_to64();
            if k > 64 {
                lemma_pow2_strictly_increases(64, k as nat);
            }
            assert(rows <= usize::MAX);
        }
        false
    } else {
        proof {
            lemma_u64_pow2_no_overflow(k as nat);
            lemma_u64_shl_is_mul(1, k as u64);
        }
        let n: u64 = 1u64 << (k as u64);
        n as usize == rows && rows as u64 == n
    }
}

/// Checks `proof` against the claimed distance `distance`. Parameters and a
/// key of different sizes reject the proof without asking the backend;
/// otherwise the backend's verdict decides, and an unreadable proof is `Malformed`.
pub fn verify_distance(
    params: &SetupParams,
    vk: &VerifierKey,
    distance: u64,
    proof: &[u8],
) -> (v: Verdict)
    ensures
        (v == Verdict::Accepted) <==> (sizes_match(*params, *vk) && backend_accepts(
            *params,
            *vk,
            distance,
            proof@,
        )),
        !sizes_match(*params, *vk) ==> v == Verdict::Rejected,
        proof@.len() == 0 ==> v != Verdict::Accepted,
{
    if !same_size(params, vk) {
        return Verdict::Rejected;
    }
    let result = backend_verify(params, vk, distance, proof);
    verdict_of(&result)
}

/// Whether `proof` shows the claimed distance: a verdict of `Accepted`.
pub fn check_proof(
    params: &SetupParams,
    vk: &VerifierKey,
    distance: u64,
    proof: &[u8],
) -> (r: bool)
    ensures
        r == (sizes_match(*params, *vk) && backend_accepts(*params, *vk, distance, proof@)),
        proof@.len() == 0 ==> !r,
{
    let v = verify_distance(params, vk, distance, proof);
    match v {
        Verdict::Accepted => true,
        _ => false,
    }
}

} // verus!
