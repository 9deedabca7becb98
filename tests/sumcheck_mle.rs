use ceno_tower::circuit_layout::{Circuit, Layer};
use ceno_tower::field::{Ext, P};
use ceno_tower::mle::{build_eq, eq_eval_exec, evaluate};
use ceno_tower::sumcheck::{prove_batched, verify_sumcheck, SumcheckError, SumcheckTerm};
use ceno_tower::transcript::Transcript;

fn e(v: u64) -> Ext {
    Ext::from_u64(v)
}

fn es(vs: &[u64]) -> Vec<Ext> {
    vs.iter().map(|v| e(*v)).collect()
}

#[test]
fn evaluate_reads_the_lowest_variable_first() {
    let t = es(&[1, 2, 3, 4]);
    assert_eq!(evaluate(&t, &es(&[0, 0])), e(1));
    assert_eq!(evaluate(&t, &es(&[1, 0])), e(2));
    assert_eq!(evaluate(&t, &es(&[0, 1])), e(3));
    assert_eq!(evaluate(&t, &es(&[1, 1])), e(4));
    // multilinear: 1 + x + 2y at (5, 7)
    assert_eq!(evaluate(&t, &es(&[5, 7])), e(20));
}

#[test]
fn eq_table_and_eq_value() {
    // entries weight bit j by r_j and its complement by 1 - r_j
    assert_eq!(build_eq(&es(&[2, 3])), es(&[2, P - 4, P - 3, 6]));
    // eq(a, b) = prod (a b + (1 - a)(1 - b))
    assert_eq!(eq_eval_exec(&es(&[2, 3]), &es(&[4, 5])), e((8 + 3) * (15 + 8)));
    assert_eq!(eq_eval_exec(&es(&[1, 0]), &es(&[1, 0])), e(1));
    assert_eq!(eq_eval_exec(&es(&[1, 0]), &es(&[0, 0])), e(0));
}

fn batch() -> (Vec<Ext>, Vec<Vec<Ext>>, Vec<SumcheckTerm>) {
    let eq = build_eq(&es(&[3, 9]));
    let mles = vec![es(&[1, 2, 3, 4]), es(&[5, 6, 7, 8]), es(&[2, 2, 1, 1])];
    let terms = vec![
        SumcheckTerm { coeff: e(1), f: 0, g: 1 },
        SumcheckTerm { coeff: e(4), f: 1, g: 2 },
    ];
    (eq, mles, terms)
}

fn claim_of(eq: &[Ext], mles: &[Vec<Ext>], terms: &[SumcheckTerm]) -> Ext {
    let mut acc = Ext::zero();
    for t in terms {
        for x in 0..eq.len() {
            acc = acc.add(t.coeff.mul(eq[x]).mul(mles[t.f][x]).mul(mles[t.g][x]));
        }
    }
    acc
}

#[test]
fn sumcheck_round_trip() {
    let (eq, mles, terms) = batch();
    let claim = claim_of(&eq, &mles, &terms);
    let mut tp = Transcript::new(42);
    let (msgs, point, eq_final, finals) = prove_batched(eq.clone(), mles.clone(), &terms, 2, &mut tp);
    assert_eq!(msgs.len(), 2);
    assert!(msgs.iter().all(|m| m.len() == 4));
    assert_eq!(finals[0], evaluate(&mles[0], &point));
    assert_eq!(eq_final, evaluate(&eq, &point));
    let mut tv = Transcript::new(42);
    let sub = verify_sumcheck(claim, &msgs, 2, &mut tv).ok().expect("honest proof");
    assert_eq!(sub.point, point);
    let expected = e(1).mul(eq_final).mul(finals[0]).mul(finals[1])
        .add(e(4).mul(eq_final).mul(finals[1]).mul(finals[2]));
    assert_eq!(sub.expected_evaluation, expected);
    assert_eq!(tv.state, tp.state);
}

#[test]
fn sumcheck_rejects_wrong_claim() {
    let (eq, mles, terms) = batch();
    let claim = claim_of(&eq, &mles, &terms);
    let mut tp = Transcript::new(1);
    let (msgs, _, _, _) = prove_batched(eq, mles, &terms, 2, &mut tp);
    let mut tv = Transcript::new(1);
    let res = verify_sumcheck(claim.add(Ext::one()), &msgs, 2, &mut tv);
    assert_eq!(res.err(), Some(SumcheckError::RoundSumMismatch));
}

#[test]
fn sumcheck_rejects_wrong_shape() {
    let (eq, mles, terms) = batch();
    let claim = claim_of(&eq, &mles, &terms);
    let mut tp = Transcript::new(1);
    let (mut msgs, _, _, _) = prove_batched(eq, mles, &terms, 2, &mut tp);
    let mut tv = Transcript::new(1);
    assert_eq!(verify_sumcheck(claim, &msgs, 3, &mut tv).err(), Some(SumcheckError::ShapeMismatch));
    msgs[1].pop();
    let mut tv = Transcript::new(1);
    assert_eq!(verify_sumcheck(claim, &msgs, 2, &mut tv).err(), Some(SumcheckError::ShapeMismatch));
}

#[test]
fn challenge_powers() {
    let mut t = Transcript::new(3);
    let mut u = Transcript::new(3);
    let a = u.get_challenge();
    let pows = t.get_challenge_pows(4);
    assert_eq!(pows, vec![Ext::one(), a, a.mul(a), a.mul(a).mul(a)]);
    assert_eq!(t.state, u.state);
}

#[test]
fn layer_sizes() {
    let l0 = Layer { num_vars: 3, max_previous_num_vars: 5 };
    let l1 = Layer { num_vars: 6, max_previous_num_vars: 0 };
    assert_eq!(l0.size(), 8);
    assert_eq!(l0.num_vars(), 3);
    assert_eq!(l0.max_previous_num_vars(), 5);
    assert_eq!(l0.max_previous_size(), 32);
    let c = Circuit { layers: vec![l0, l1] };
    assert_eq!(c.output_num_vars(), 3);
    assert_eq!(c.output_size(), 8);
    assert_eq!(*c.last_layer_ref(), l0);
    assert_eq!(*c.first_layer_ref(), l1);
    assert!(c.is_input_layer(1));
    assert!(!c.is_input_layer(0));
    assert!(c.is_output_layer(0));
}
