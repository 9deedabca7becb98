use ceno_tower::field::Ext;
use ceno_tower::mle::evaluate;
use ceno_tower::sumcheck::SumcheckError;
use ceno_tower::tower_prover::{TowerProver, TowerProverSpec};
use ceno_tower::tower_proof::{PointAndEval, TowerProofs};
use ceno_tower::tower_verifier::{check_lookup_table_witness, TowerVerify, TowerVerifyError};
use ceno_tower::transcript::Transcript;
use ceno_tower::witness::{
    infer_tower_logup_witness, infer_tower_product_witness, interleaving_mles_to_mles,
};

fn e(v: u64) -> Ext {
    Ext::from_u64(v)
}

fn es(vs: &[u64]) -> Vec<Ext> {
    vs.iter().map(|v| e(*v)).collect()
}

fn log2(n: usize) -> usize {
    n.trailing_zeros() as usize
}

/// A product tower over two branches of equal power-of-two length.
fn product_spec(branches: Vec<Vec<Ext>>) -> TowerProverSpec {
    let num_vars = log2(branches[0].len()) + 1;
    TowerProverSpec { witness: infer_tower_product_witness(num_vars, branches, 2) }
}

fn logup_spec(q1: Vec<Ext>, q2: Vec<Ext>) -> TowerProverSpec {
    TowerProverSpec { witness: infer_tower_logup_witness(vec![q1, q2]) }
}

/// Root values and layer counts of the specs, as the verifier receives them.
fn roots(specs: &[TowerProverSpec]) -> (Vec<Vec<Ext>>, Vec<usize>) {
    let outs = specs.iter().map(|s| s.witness[0].iter().map(|t| t[0]).collect()).collect();
    let rounds = specs.iter().map(|s| s.witness.len()).collect();
    (outs, rounds)
}

fn copy_spec(s: &TowerProverSpec) -> TowerProverSpec {
    TowerProverSpec { witness: s.witness.clone() }
}

fn copy_proof(p: &TowerProofs) -> TowerProofs {
    TowerProofs {
        proofs: p.proofs.clone(),
        prod_specs_eval: p.prod_specs_eval.clone(),
        logup_specs_eval: p.logup_specs_eval.clone(),
        prod_specs_points: p.prod_specs_points.clone(),
        logup_specs_points: p.logup_specs_points.clone(),
    }
}

type Verified = Result<(Vec<Ext>, Vec<PointAndEval>, Vec<PointAndEval>, Vec<PointAndEval>), TowerVerifyError>;

fn prove(prod: &[TowerProverSpec], logup: &[TowerProverSpec], seed: u64) -> (Vec<Ext>, TowerProofs) {
    let mut t = Transcript::new(seed);
    TowerProver::create_proof(
        1,
        prod.iter().map(copy_spec).collect(),
        logup.iter().map(copy_spec).collect(),
        2,
        &mut t,
    )
}

fn verify(prod: &[TowerProverSpec], logup: &[TowerProverSpec], proof: &TowerProofs, seed: u64) -> Verified {
    let (prod_out, prod_rounds) = roots(prod);
    let (logup_out, logup_rounds) = roots(logup);
    let mut t = Transcript::new(seed);
    TowerVerify::verify(prod_out, logup_out, proof, [prod_rounds, logup_rounds].concat(), 2, &mut t)
}

/// Read and write records of `n` instances (four records per instance) and a lookup of
/// `n` instances, as the tower specs a proof batches together.
fn specs_for(n: usize) -> (Vec<TowerProverSpec>, Vec<TowerProverSpec>) {
    let log_n = log2(n);
    let records = |base: u64| -> Vec<Vec<Ext>> {
        (0..4u64).map(|r| (0..n as u64).map(|i| e(base + 10 * i + r + 1)).collect()).collect()
    };
    let branches = |base: u64| -> Vec<Vec<Ext>> {
        if n == 1 {
            let rs = records(base);
            vec![vec![rs[0][0], rs[1][0]], vec![rs[2][0], rs[3][0]]]
        } else {
            interleaving_mles_to_mles(&records(base), log_n, 2, 2, Ext::one())
        }
    };
    let prod = vec![product_spec(branches(100)), product_spec(branches(7))];
    let q1: Vec<Ext> = (0..n as u64).map(|i| e(1000 + 3 * i)).collect();
    let q2: Vec<Ext> = (0..n as u64).map(|i| e(2000 + 5 * i)).collect();
    let logup = vec![logup_spec(q1, q2)];
    (prod, logup)
}

fn round_trip(n: usize) {
    let (prod, logup) = specs_for(n);
    let (point, proof) = prove(&prod, &logup, 17);
    let height = prod.iter().chain(logup.iter()).map(|s| s.witness.len()).max().unwrap();
    assert_eq!(proof.proofs.len(), height - 1);
    assert_eq!(point.len(), height);
    let (vpoint, p, lp, lq) = verify(&prod, &logup, &proof, 17).expect("honest proof must verify");
    assert_eq!(vpoint, point);
    assert_eq!(p.len(), 2);
    assert_eq!(lp.len(), 1);
    assert_eq!(lq.len(), 1);
    // each claim is the leaf layer, its branches side by side, taken at the claim's point
    for (s, c) in prod.iter().zip(p.iter()) {
        let leaves = s.witness.last().unwrap().concat();
        assert_eq!(evaluate(&leaves, &c.point), c.eval);
    }
    if logup[0].witness.len() > 1 {
        let leaves = logup[0].witness.last().unwrap();
        let q = [leaves[2].clone(), leaves[3].clone()].concat();
        assert_eq!(evaluate(&q, &lq[0].point), lq[0].eval);
    }
    if logup[0].witness.len() > 1 {
        // the leaf numerators of a lookup are all one, so is their claim
        assert_eq!(check_lookup_table_witness(&lp), Ok(()));
    } else {
        // a lookup with a single layer takes part in no round
        assert!(lp[0].point.is_empty());
    }
}

#[test]
fn round_trip_one_instance() {
    round_trip(1);
}

#[test]
fn round_trip_four_instances() {
    round_trip(4);
}

#[test]
fn round_trip_sixteen_instances() {
    round_trip(16);
}

#[test]
fn round_trip_specs_of_different_heights() {
    let prod = vec![
        product_spec(vec![es(&[1, 2, 3, 4, 5, 6, 7, 8]), es(&[9, 10, 11, 12, 13, 14, 15, 16])]),
        product_spec(vec![es(&[3]), es(&[5])]),
    ];
    let logup = vec![logup_spec(es(&[2, 3, 4, 5]), es(&[6, 7, 8, 9]))];
    let (point, proof) = prove(&prod, &logup, 3);
    assert_eq!(proof.proofs.len(), 3);
    assert_eq!(proof.prod_specs_eval[0].len(), 3);
    assert_eq!(proof.prod_specs_eval[1].len(), 0);
    assert_eq!(proof.logup_specs_eval[0].len(), 2);
    let (vpoint, p, lp, _) = verify(&prod, &logup, &proof, 3).unwrap();
    assert_eq!(vpoint, point);
    // the last spec round's point is frozen as the spec's claim
    assert_eq!(p[0].point, proof.prod_specs_points[0][2]);
    assert_eq!(lp[0].point, proof.logup_specs_points[0][1]);
    // a spec with a single layer never takes part: its claim stays empty
    assert!(p[1].point.is_empty());
    assert_eq!(p[1].eval, Ext::zero());
}

#[test]
fn tampered_evaluations_are_rejected() {
    let (prod, logup) = specs_for(4);
    let (_, proof) = prove(&prod, &logup, 5);
    for s in 0..proof.prod_specs_eval.len() {
        for r in 0..proof.prod_specs_eval[s].len() {
            for k in 0..proof.prod_specs_eval[s][r].len() {
                let mut bad = copy_proof(&proof);
                bad.prod_specs_eval[s][r][k] = bad.prod_specs_eval[s][r][k].add(Ext::one());
                let res = verify(&prod, &logup, &bad, 5);
                assert_eq!(res.err(), Some(TowerVerifyError::TowerEvaluationMismatch));
            }
        }
    }
    for s in 0..proof.logup_specs_eval.len() {
        for r in 0..proof.logup_specs_eval[s].len() {
            for k in 0..proof.logup_specs_eval[s][r].len() {
                let mut bad = copy_proof(&proof);
                bad.logup_specs_eval[s][r][k] = bad.logup_specs_eval[s][r][k].add(Ext::one());
                let res = verify(&prod, &logup, &bad, 5);
                assert_eq!(res.err(), Some(TowerVerifyError::TowerEvaluationMismatch));
            }
        }
    }
}

#[test]
fn tampered_sumcheck_message_is_rejected() {
    let (prod, logup) = specs_for(4);
    let (_, proof) = prove(&prod, &logup, 5);
    let mut bad = copy_proof(&proof);
    bad.proofs[1][0][0] = bad.proofs[1][0][0].add(Ext::one());
    let res = verify(&prod, &logup, &bad, 5);
    assert!(matches!(res, Err(TowerVerifyError::Sumcheck(_))));
}

#[test]
fn short_sumcheck_message_is_rejected() {
    let (prod, logup) = specs_for(4);
    let (_, proof) = prove(&prod, &logup, 5);
    let mut bad = copy_proof(&proof);
    bad.proofs[0][0].pop();
    assert_eq!(
        verify(&prod, &logup, &bad, 5).err(),
        Some(TowerVerifyError::Sumcheck(SumcheckError::ShapeMismatch))
    );
}

#[test]
fn missing_round_is_malformed() {
    let (prod, logup) = specs_for(4);
    let (_, proof) = prove(&prod, &logup, 5);
    let mut bad = copy_proof(&proof);
    bad.proofs.pop();
    assert_eq!(verify(&prod, &logup, &bad, 5).err(), Some(TowerVerifyError::MalformedProof));
}

#[test]
fn different_transcript_seed_is_rejected() {
    let (prod, logup) = specs_for(4);
    let (_, proof) = prove(&prod, &logup, 5);
    assert!(verify(&prod, &logup, &proof, 6).is_err());
}

#[test]
fn proving_is_deterministic() {
    let (prod, logup) = specs_for(16);
    let (p1, a) = prove(&prod, &logup, 11);
    let (p2, b) = prove(&prod, &logup, 11);
    assert_eq!(p1, p2);
    assert_eq!(a.proofs, b.proofs);
    assert_eq!(a.prod_specs_eval, b.prod_specs_eval);
    assert_eq!(a.logup_specs_eval, b.logup_specs_eval);
    assert_eq!(a.prod_specs_points, b.prod_specs_points);
    assert_eq!(a.logup_specs_points, b.logup_specs_points);
}

#[test]
fn lookup_numerator_not_one_is_rejected() {
    // a logup tower whose leaf numerators are not all one: p1 = [1, 2], p2 = [1, 1]
    let leaf = vec![es(&[1, 2]), es(&[1, 1]), es(&[3, 4]), es(&[5, 6])];
    let num = |a: Ext, b: Ext, c: Ext, d: Ext| b.mul(c).add(a.mul(d));
    let root = vec![
        vec![num(leaf[0][0], leaf[1][0], leaf[2][0], leaf[3][0])],
        vec![num(leaf[0][1], leaf[1][1], leaf[2][1], leaf[3][1])],
        vec![leaf[2][0].mul(leaf[3][0])],
        vec![leaf[2][1].mul(leaf[3][1])],
    ];
    let spec = TowerProverSpec { witness: vec![root, leaf] };
    let prod = vec![product_spec(vec![es(&[2]), es(&[3])])];
    let logup = vec![spec];
    let (_, proof) = prove(&prod, &logup, 9);
    let (_, _, lp, _) = verify(&prod, &logup, &proof, 9).unwrap();
    assert_eq!(check_lookup_table_witness(&lp), Err(TowerVerifyError::LookupTableWitnessNotOne));
}

#[test]
fn two_leaves_single_round() {
    let leaves = vec![es(&[1, 2]), es(&[3, 4])];
    let spec = product_spec(leaves);
    assert_eq!(spec.witness.len(), 2);
    assert_eq!(spec.witness[0], vec![es(&[3]), es(&[8])]);
    assert_eq!(spec.witness[0][0][0].mul(spec.witness[0][1][0]), e(24));
    let prod = vec![spec];
    let (point, proof) = prove(&prod, &[], 1);
    assert_eq!(proof.proofs.len(), 1);
    let (vpoint, p, _, _) = verify(&prod, &[], &proof, 1).unwrap();
    assert_eq!(vpoint, point);
    assert_eq!(p[0].point, point);
}
