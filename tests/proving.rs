//! Proofs made and checked with the real backend. A halo2 circuit is a type
//! with an impl of halo2's `Circuit` trait, which the library cannot hold, so
//! the circuit over the library's witness rows is declared here for the tests.
use bitveil::backend::{check_proof, setup, verify_distance, SetupParams, Verdict, VerifierKey, MIN_K};
use bitveil::circuit::{build_witness, Row, Witness, ROWS};
use bitveil::distance::compute_distance;
use halo2_proofs::circuit::{Layouter, SimpleFloorPlanner, Value};
use halo2_proofs::pasta::{EqAffine, Fp};
use halo2_proofs::plonk::{
    create_proof, keygen_pk, keygen_vk, Advice, Circuit, Column, ConstraintSystem, Error,
    Expression, Instance, ProvingKey, Selector, VerifyingKey,
};
use halo2_proofs::poly::Rotation;
use halo2_proofs::transcript::{Blake2bWrite, Challenge255};
use rand_core::OsRng;

#[derive(Clone, Debug)]
pub struct HammingConfig {
    a: Column<Advice>,
    b: Column<Advice>,
    sum: Column<Advice>,
    distance: Column<Instance>,
    s_bits: Selector,
    s_first: Selector,
    s_next: Selector,
}

/// The circuit; without rows it is the empty instance used to derive keys.
#[derive(Clone, Debug, Default)]
pub struct HammingCircuit {
    rows: Option<Vec<Row>>,
}

impl HammingCircuit {
    pub fn empty() -> Self {
        HammingCircuit { rows: None }
    }

    pub fn from_witness(w: &Witness) -> Self {
        HammingCircuit { rows: Some((0..w.len()).map(|i| w.row(i)).collect()) }
    }

    fn cell(&self, i: usize, pick: fn(&Row) -> u64) -> Value<Fp> {
        match &self.rows {
            Some(rows) => Value::known(Fp::from(pick(&rows[i]))),
            None => Value::unknown(),
        }
    }
}

fn xor(a: Expression<Fp>, b: Expression<Fp>) -> Expression<Fp> {
    a.clone() + b.clone() - Expression::Constant(Fp::from(2)) * a * b
}

impl Circuit<Fp> for HammingCircuit {
    type Config = HammingConfig;
    type FloorPlanner = SimpleFloorPlanner;

    fn without_witnesses(&self) -> Self {
        HammingCircuit::empty()
    }

    fn configure(meta: &mut ConstraintSystem<Fp>) -> HammingConfig {
        let a = meta.advice_column();
        let b = meta.advice_column();
        let sum = meta.advice_column();
        let distance = meta.instance_column();
        meta.enable_equality(sum);
        meta.enable_equality(distance);
        let s_bits = meta.selector();
        let s_first = meta.selector();
        let s_next = meta.selector();
        let one = || Expression::Constant(Fp::from(1));

        meta.create_gate("bits", |m| {
            let s = m.query_selector(s_bits);
            let a = m.query_advice(a, Rotation::cur());
            let b = m.query_advice(b, Rotation::cur());
            vec![
                s.clone() * a.clone() * (a - one()),
                s * b.clone() * (b - one()),
            ]
        });
        meta.create_gate("start sum", |m| {
            let s = m.query_selector(s_first);
            let a = m.query_advice(a, Rotation::cur());
            let b = m.query_advice(b, Rotation::cur());
            let sum = m.query_advice(sum, Rotation::cur());
            vec![s * (sum - xor(a, b))]
        });
        meta.create_gate("accumulate", |m| {
            let s = m.query_selector(s_next);
            let a = m.query_advice(a, Rotation::cur());
            let b = m.query_advice(b, Rotation::cur());
            let prev = m.query_advice(sum, Rotation::prev());
            let sum = m.query_advice(sum, Rotation::cur());
            vec![s * (sum - prev - xor(a, b))]
        });

        HammingConfig { a, b, sum, distance, s_bits, s_first, s_next }
    }

    fn synthesize(&self, config: HammingConfig, mut layouter: impl Layouter<Fp>) -> Result<(), Error> {
        let last = layouter.assign_region(
            || "hamming rows",
            |mut region| {
                let mut last = None;
                for i in 0..ROWS {
                    config.s_bits.enable(&mut region, i)?;
                    if i == 0 {
                        config.s_first.enable(&mut region, i)?;
                    } else {
                        config.s_next.enable(&mut region, i)?;
                    }
                    region.assign_advice(|| "a", config.a, i, || self.cell(i, |r| r.a))?;
                    region.assign_advice(|| "b", config.b, i, || self.cell(i, |r| r.b))?;
                    let sum = region.assign_advice(|| "sum", config.sum, i, || self.cell(i, |r| r.sum))?;
                    last = Some(sum);
                }
                last.ok_or(Error::Synthesis)
            },
        )?;
        layouter.constrain_instance(last.cell(), config.distance, 0)
    }
}

/// Derives both keys from the setup parameters and the empty circuit.
pub fn generate_keys(
    params: &SetupParams,
) -> Result<(ProvingKey<EqAffine>, VerifyingKey<EqAffine>), Error> {
    let empty = HammingCircuit::empty();
    let vk = keygen_vk(&params.backend, &empty)?;
    let pk = keygen_pk(&params.backend, vk.clone(), &empty)?;
    Ok((pk, vk))
}

/// Proves that `witness` gives the public distance `distance`.
pub fn generate_proof(
    params: &SetupParams,
    pk: &ProvingKey<EqAffine>,
    witness: &Witness,
    distance: u64,
) -> Result<Vec<u8>, Error> {
    let circuit = HammingCircuit::from_witness(witness);
    let instance = [Fp::from(distance)];
    let mut transcript = Blake2bWrite::<_, EqAffine, Challenge255<_>>::init(vec![]);
    create_proof(&params.backend, pk, &[circuit], &[&[&instance[..]]], OsRng, &mut transcript)?;
    Ok(transcript.finalize())
}


struct Proved {
    params: SetupParams,
    vk: VerifierKey,
    proof: Vec<u8>,
}

fn prove(a: &Vec<u64>, b: &Vec<u64>) -> (u64, Proved) {
    let distance = compute_distance(a, b).unwrap();
    let witness = build_witness(a, b).unwrap();
    let params = setup(MIN_K).ok().unwrap();
    let (pk, vk) = generate_keys(&params).unwrap();
    let proof = generate_proof(&params, &pk, &witness, distance).unwrap();
    (distance, Proved { params, vk: VerifierKey { backend: vk }, proof })
}

fn zeros() -> Vec<u64> {
    vec![0; 32]
}

#[test]
fn zero_vectors_proof_verifies_only_distance_zero() {
    let (d, p) = prove(&zeros(), &zeros());
    assert_eq!(d, 0);
    assert!(check_proof(&p.params, &p.vk, 0, &p.proof));
    assert!(!check_proof(&p.params, &p.vk, 1, &p.proof));
}

#[test]
fn eight_ones_proof_verifies_distance_eight() {
    let mut b = zeros();
    for i in 0..8 {
        b[i] = 1;
    }
    let (d, p) = prove(&zeros(), &b);
    assert_eq!(d, 8);
    assert_eq!(verify_distance(&p.params, &p.vk, 8, &p.proof), Verdict::Accepted);
    assert_eq!(verify_distance(&p.params, &p.vk, 7, &p.proof), Verdict::Rejected);
    assert_eq!(verify_distance(&p.params, &p.vk, 32, &p.proof), Verdict::Rejected);
}

#[test]
fn tampered_proof_is_refused() {
    let a: Vec<u64> = (0..32).map(|i| (i % 2) as u64).collect();
    let (d, p) = prove(&a, &zeros());
    assert_eq!(d, 16);
    for pos in [0, p.proof.len() / 3, p.proof.len() / 2, p.proof.len() - 1] {
        let mut forged = p.proof.clone();
        forged[pos] ^= 0x01;
        assert_ne!(verify_distance(&p.params, &p.vk, d, &forged), Verdict::Accepted);
    }
    let short = p.proof[..p.proof.len() / 2].to_vec();
    assert_eq!(verify_distance(&p.params, &p.vk, d, &short), Verdict::Malformed);
}

#[test]
fn key_of_another_size_is_rejected_not_a_fault() {
    let (d, p) = prove(&zeros(), &zeros());
    let larger = setup(MIN_K + 1).ok().unwrap();
    let (_pk, other_vk) = generate_keys(&larger).unwrap();
    let other_vk = VerifierKey { backend: other_vk };
    assert_eq!(verify_distance(&p.params, &other_vk, d, &p.proof), Verdict::Rejected);
    assert_eq!(verify_distance(&larger, &p.vk, d, &p.proof), Verdict::Rejected);
    assert!(!check_proof(&larger, &p.vk, d, &p.proof));
}

#[test]
fn proof_under_other_parameters_is_refused() {
    let (d, p) = prove(&zeros(), &zeros());
    let larger = setup(MIN_K + 1).ok().unwrap();
    let (_pk, vk) = generate_keys(&larger).unwrap();
    assert_ne!(verify_distance(&larger, &VerifierKey { backend: vk }, d, &p.proof), Verdict::Accepted);
}

#[test]
fn empty_proof_is_malformed() {
    let (d, p) = prove(&zeros(), &zeros());
    assert_eq!(verify_distance(&p.params, &p.vk, d, &[]), Verdict::Malformed);
    assert!(!check_proof(&p.params, &p.vk, d, &[]));
}

#[test]
fn verification_is_repeatable_and_bounded() {
    let (d, p) = prove(&vec![1; 32], &zeros());
    assert_eq!(d, 32);
    let first = check_proof(&p.params, &p.vk, d, &p.proof);
    assert!(first);
    assert_eq!(check_proof(&p.params, &p.vk, d, &p.proof), first);
    assert!(!check_proof(&p.params, &p.vk, 33, &p.proof));
}
