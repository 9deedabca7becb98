use crate::field::{ext_add, ext_mul, ext_one, ext_sub, ext_zero, Ext};
use crate::mle::{copy_table, cube_size, eq_eval, eq_eval_exec, evaluate, mle_eval, tables};
use crate::sumcheck::{
    sc_accepts, sc_claim, sc_point, sc_shape_ok, sc_state, verify_sumcheck, SumcheckError,
};
use crate::tower_proof::{PointAndEval, TowerProofs};
use crate::tower_prover::{
    max_layers, prove_outcome, prover_after, specs_shape_ok, tower_height, tower_shape_ok,
    TowerProverSpec,
};
use crate::transcript::{powers, squeeze, Transcript};
use vstd::prelude::*;

verus! {

#[derive(Clone, Copy, Debug, PartialEq, Eq, Structural)]
pub enum TowerVerifyError {
    /// The proof lacks a round, or a spec's recorded evaluations for some round, or such
    /// a record has the wrong number of values.
    MalformedProof,
    /// The sum-check of some round was rejected.
    Sumcheck(SumcheckError),
    /// The claimed evaluations of some round do not explain the value its sum-check
    /// reduced to.
    TowerEvaluationMismatch,
    /// The numerator claim of the fixed lookup table is not one.
    LookupTableWitnessNotOne,
}

pub struct TowerVerify;

/// The verifier's state between rounds: the current point and the claim about it, the
/// batching powers, the last merged claim of each spec, and the transcript state.
pub struct VerifierView {
    pub point: Seq<Ext>,
    pub claim: Ext,
    pub alpha: Seq<Ext>,
    pub prod: Seq<(Seq<Ext>, Ext)>,
    pub logup_p: Seq<(Seq<Ext>, Ext)>,
    pub logup_q: Seq<(Seq<Ext>, Ext)>,
    pub state: Ext,
}

/// A spec with `rounds` layers takes part in round `round` (counted from zero).
pub open spec fn is_active(rounds: usize, round: int) -> bool {
    round + 1 < rounds
}

/// Largest entry of `s` (zero for the empty sequence).
pub open spec fn seq_max(s: Seq<usize>) -> nat
    decreases s.len(),
{
    if s.len() == 0 {
        0
    } else {
        let m = seq_max(s.drop_last());
        if s.last() > m {
            s.last() as nat
        } else {
            m
        }
    }
}

/// `a (1 - r) + b r`: the two branch values merged with the weights `eq(r, .)`.
pub open spec fn merge(a: Ext, b: Ext, r: Ext) -> Ext {
    ext_add(ext_mul(a, ext_sub(ext_one(), r)), ext_mul(b, r))
}

/// `1 * e0 * e1`.
pub open spec fn prod_of(e: Seq<Ext>) -> Ext {
    ext_mul(ext_mul(ext_one(), e[0]), e[1])
}

/// `alpha_n (p1 q2 + p2 q1) + alpha_d q1 q2` for `e = [p1, p2, q1, q2]`.
pub open spec fn logup_of(e: Seq<Ext>, alpha_n: Ext, alpha_d: Ext) -> Ext {
    ext_add(
        ext_mul(alpha_n, ext_add(ext_mul(e[0], e[3]), ext_mul(e[1], e[2]))),
        ext_mul(alpha_d, ext_mul(e[2], e[3])),
    )
}

/// Sum over the first `n` product specs of `eq * alpha_i * (e0 e1)` for those still
/// active in `round`.
pub open spec fn prod_expected(
    tp: TowerProofs,
    er: Seq<usize>,
    alpha: Seq<Ext>,
    eqv: Ext,
    round: int,
    n: nat,
) -> Ext
    decreases n,
{
    if n == 0 {
        ext_zero()
    } else {
        let i = n - 1;
        let c = if is_active(er[i], round) {
            prod_of(tp.prod_evals()[i][round])
        } else {
            ext_zero()
        };
        ext_add(prod_expected(tp, er, alpha, eqv, round, (n - 1) as nat), ext_mul(ext_mul(eqv, alpha[i]), c))
    }
}

/// Sum over the first `n` logup specs of `eq * (alpha_n (p1 q2 + p2 q1) + alpha_d q1 q2)`
/// for those still active in `round`.
pub open spec fn logup_expected(
    tp: TowerProofs,
    er: Seq<usize>,
    alpha: Seq<Ext>,
    eqv: Ext,
    round: int,
    np: nat,
    n: nat,
) -> Ext
    decreases n,
{
    if n == 0 {
        ext_zero()
    } else {
        let i = n - 1;
        let c = if is_active(er[np + i], round) {
            logup_of(tp.logup_evals()[i][round], alpha[np + 2 * i], alpha[np + 2 * i + 1])
        } else {
            ext_zero()
        };
        ext_add(logup_expected(tp, er, alpha, eqv, round, np, (n - 1) as nat), ext_mul(eqv, c))
    }
}

/// Sum over the first `n` product specs of the merged value weighted by the next
/// round's power, for those active in both rounds.
pub open spec fn prod_next(tp: TowerProofs, er: Seq<usize>, alpha: Seq<Ext>, r: Ext, round: int, n: nat) -> Ext
    decreases n,
{
    if n == 0 {
        ext_zero()
    } else {
        let i = n - 1;
        let e = tp.prod_evals()[i][round];
        let c = if is_active(er[i], round) && is_active(er[i], round + 1) {
            ext_mul(alpha[i], merge(e[0], e[1], r))
        } else {
            ext_zero()
        };
        ext_add(prod_next(tp, er, alpha, r, round, (n - 1) as nat), c)
    }
}

pub open spec fn logup_next(
    tp: TowerProofs,
    er: Seq<usize>,
    alpha: Seq<Ext>,
    r: Ext,
    round: int,
    np: nat,
    n: nat,
) -> Ext
    decreases n,
{
    if n == 0 {
        ext_zero()
    } else {
        let i = n - 1;
        let e = tp.logup_evals()[i][round];
        let c = if is_active(er[np + i], round) && is_active(er[np + i], round + 1) {
            ext_add(
                ext_mul(alpha[np + 2 * i], merge(e[0], e[1], r)),
                ext_mul(alpha[np + 2 * i + 1], merge(e[2], e[3], r)),
            )
        } else {
            ext_zero()
        };
        ext_add(logup_next(tp, er, alpha, r, round, np, (n - 1) as nat), c)
    }
}

/// `sum_i alpha_i * out_i(rt)` over the product specs, then
/// `alpha_n * p(rt) + alpha_d * q(rt)` over the logup specs; a spec with no round
/// (a single layer) adds nothing.
pub open spec fn prod_initial(out: Seq<Seq<Ext>>, er: Seq<usize>, alpha: Seq<Ext>, rt: Seq<Ext>, n: nat) -> Ext
    decreases n,
{
    if n == 0 {
        ext_zero()
    } else {
        let i = n - 1;
        let prev = prod_initial(out, er, alpha, rt, (n - 1) as nat);
        if is_active(er[i], 0) {
            ext_add(prev, ext_mul(mle_eval(out[i], rt), alpha[i]))
        } else {
            prev
        }
    }
}

pub open spec fn logup_initial(out: Seq<Seq<Ext>>, er: Seq<usize>, alpha: Seq<Ext>, rt: Seq<Ext>, np: nat, n: nat) -> Ext
    decreases n,
{
    if n == 0 {
        ext_zero()
    } else {
        let i = n - 1;
        let e = out[i];
        let prev = logup_initial(out, er, alpha, rt, np, (n - 1) as nat);
        if is_active(er[np + i], 0) {
            ext_add(
                prev,
                ext_add(
                    ext_mul(mle_eval(seq![e[0], e[1]], rt), alpha[np + 2 * i]),
                    ext_mul(mle_eval(seq![e[2], e[3]], rt), alpha[np + 2 * i + 1]),
                ),
            )
        } else {
            prev
        }
    }
}

pub open spec fn no_claims(n: nat) -> Seq<(Seq<Ext>, Ext)> {
    Seq::new(n, |i: int| (Seq::<Ext>::empty(), ext_zero()))
}

/// State after the opening draws: the batching powers, then one coordinate of the
/// starting point.
pub open spec fn verifier_init(
    prod_out: Seq<Seq<Ext>>,
    logup_out: Seq<Seq<Ext>>,
    er: Seq<usize>,
    s0: Ext,
) -> VerifierView {
    let np = prod_out.len();
    let nl = logup_out.len();
    let a = squeeze(s0);
    let alpha = powers(a, np + 2 * nl);
    let r = squeeze(a);
    let rt = seq![r];
    VerifierView {
        point: rt,
        claim: ext_add(prod_initial(prod_out, er, alpha, rt, np), logup_initial(logup_out, er, alpha, rt, np, nl)),
        alpha,
        prod: no_claims(np),
        logup_p: no_claims(nl),
        logup_q: no_claims(nl),
        state: r,
    }
}

/// Round `j`: check the round's sum-check against the running claim, check the claimed
/// evaluations against what it reduced to, then draw the merge challenge and the next
/// powers, freeze each active spec's merged claims and fold the next claim.
pub open spec fn verifier_step(
    tp: TowerProofs,
    er: Seq<usize>,
    np: nat,
    nl: nat,
    v: VerifierView,
    j: int,
) -> Result<VerifierView, TowerVerifyError> {
    let msgs = tp.rounds()[j];
    let s = v.state;
    if !sc_shape_ok(msgs, (j + 1) as nat) {
        Err(TowerVerifyError::Sumcheck(SumcheckError::ShapeMismatch))
    } else if !sc_accepts(v.claim, msgs, s) {
        Err(TowerVerifyError::Sumcheck(SumcheckError::RoundSumMismatch))
    } else {
        let rt = sc_point(s, msgs);
        let eqv = eq_eval(v.point, rt);
        let expected = ext_add(
            prod_expected(tp, er, v.alpha, eqv, j, np),
            logup_expected(tp, er, v.alpha, eqv, j, np, nl),
        );
        if expected != sc_claim(v.claim, msgs, s, (j + 1) as nat) {
            Err(TowerVerifyError::TowerEvaluationMismatch)
        } else {
            let r = squeeze(sc_state(s, msgs));
            let point = rt.push(r);
            let a = squeeze(r);
            let alpha = powers(a, np + 2 * nl);
            Ok(
                VerifierView {
                    point,
                    claim: ext_add(
                        prod_next(tp, er, alpha, r, j, np),
                        logup_next(tp, er, alpha, r, j, np, nl),
                    ),
                    alpha,
                    prod: Seq::new(
                        np,
                        |i: int|
                            if is_active(er[i], j) {
                                (point, merge(tp.prod_evals()[i][j][0], tp.prod_evals()[i][j][1], r))
                            } else {
                                v.prod[i]
                            },
                    ),
                    logup_p: Seq::new(
                        nl,
                        |i: int|
                            if is_active(er[np + i], j) {
                                (point, merge(tp.logup_evals()[i][j][0], tp.logup_evals()[i][j][1], r))
                            } else {
                                v.logup_p[i]
                            },
                    ),
                    logup_q: Seq::new(
                        nl,
                        |i: int|
                            if is_active(er[np + i], j) {
                                (point, merge(tp.logup_evals()[i][j][2], tp.logup_evals()[i][j][3], r))
                            } else {
                                v.logup_q[i]
                            },
                    ),
                    state: a,
                },
            )
        }
    }
}

/// The first `k` rounds from `v0`, stopping at the first failure.
pub open spec fn verifier_run(
    tp: TowerProofs,
    er: Seq<usize>,
    np: nat,
    nl: nat,
    v0: VerifierView,
    k: nat,
) -> Result<VerifierView, TowerVerifyError>
    decreases k,
{
    if k == 0 {
        Ok(v0)
    } else {
        match verifier_run(tp, er, np, nl, v0, (k - 1) as nat) {
            Ok(v) => verifier_step(tp, er, np, nl, v, k - 1),
            Err(e) => Err(e),
        }
    }
}

/// The proof has every round and every per-spec record the verifier reads, of the
/// right sizes.
pub open spec fn proof_shape_ok(tp: TowerProofs, er: Seq<usize>, np: nat, nl: nat) -> bool {
    &&& tp.rounds().len() + 1 >= seq_max(er)
    &&& forall|i: int|
        0 <= i < np ==> (#[trigger] tp.prod_evals()[i]).len() + 1 >= er[i] && forall|k: int|
            0 <= k < er[i] - 1 ==> (#[trigger] tp.prod_evals()[i][k]).len() == 2
    &&& forall|i: int|
        0 <= i < nl ==> (#[trigger] tp.logup_evals()[i]).len() + 1 >= er[np + i] && forall|k: int|
            0 <= k < er[np + i] - 1 ==> (#[trigger] tp.logup_evals()[i][k]).len() == 4
}

/// Outcome of verifying `tp` against the root values `prod_out` and `logup_out`, with
/// `er[i]` layers expected for spec `i` (product specs first), from transcript state `s0`.
pub open spec fn tower_verify_spec(
    prod_out: Seq<Seq<Ext>>,
    logup_out: Seq<Seq<Ext>>,
    tp: TowerProofs,
    er: Seq<usize>,
    s0: Ext,
) -> Result<VerifierView, TowerVerifyError> {
    let np = prod_out.len();
    let nl = logup_out.len();
    if !proof_shape_ok(tp, er, np, nl) {
        Err(TowerVerifyError::MalformedProof)
    } else {
        verifier_run(tp, er, np, nl, verifier_init(prod_out, logup_out, er, s0), (seq_max(er) - 1) as nat)
    }
}

/// The claims held by a list of opening claims.
pub open spec fn claims(v: Seq<PointAndEval>) -> Seq<(Seq<Ext>, Ext)> {
    Seq::new(v.len(), |i: int| (v[i].point@, v[i].eval))
}

fn seq_max_exec(s: &Vec<usize>) -> (m: usize)
    ensures
        m == seq_max(s@),
        forall|i: int| 0 <= i < s.len() ==> s@[i] <= m,
{
    let mut m: usize = 0;
    let mut i: usize = 0;
    proof {
        assert(s@.subrange(0, 0) =~= Seq::<usize>::empty());
    }
    while i < s.len()
        invariant
            i <= s.len(),
            m == seq_max(s@.subrange(0, i as int)),
            forall|k: int| 0 <= k < i ==> s@[k] <= m,
        decreases s.len() - i,
    {
        proof {
            let t = s@.subrange(0, i + 1);
            assert(t.drop_last() =~= s@.subrange(0, i as int));
        }
        if s[i] > m {
            m = s[i];
        }
        i = i + 1;
    }
    proof {
        assert(s@.subrange(0, s.len() as int) =~= s@);
    }
    m
}

fn merge_exec(a: Ext, b: Ext, r: Ext) -> (v: Ext)
    ensures
        v == merge(a, b, r),
{
    a.mul(Ext::one().sub(r)).add(b.mul(r))
}

fn shape_ok_exec(tp: &TowerProofs, er: &Vec<usize>, np: usize, nl: usize) -> (ok: bool)
    requires
        er.len() == np + nl,
        tp.prod_specs_eval.len() == np,
        tp.logup_specs_eval.len() == nl,
    ensures
        ok == proof_shape_ok(*tp, er@, np as nat, nl as nat),
{
    let m = seq_max_exec(er);
    if m >= 1 && tp.proofs.len() < m - 1 {
        return false;
    }
    let mut i: usize = 0;
    while i < np
        invariant
            i <= np,
            er.len() == np + nl,
            tp.prod_specs_eval.len() == np,
            forall|j: int|
                0 <= j < i ==> (#[trigger] tp.prod_evals()[j]).len() + 1 >= er@[j] && forall|k: int|
                    0 <= k < er@[j] - 1 ==> (#[trigger] tp.prod_evals()[j][k]).len() == 2,
        decreases np - i,
    {
        let ev = &tp.prod_specs_eval[i];
        assert(tp.prod_evals()[i as int] == crate::mle::tables(ev@));
        if er[i] >= 1 && ev.len() < er[i] - 1 {
            return false;
        }
        let mut k: usize = 0;
        while k + 1 < er[i]
            invariant
                k + 1 <= er@[i as int] || k == 0,
                i < np,
                er.len() == np + nl,
                tp.prod_specs_eval.len() == np,
                ev.len() + 1 >= er@[i as int],
                tp.prod_evals()[i as int] == crate::mle::tables(ev@),
                forall|q: int| 0 <= q < k ==> (#[trigger] tp.prod_evals()[i as int][q]).len() == 2,
            decreases er@[i as int] - k,
        {
            if ev[k].len() != 2 {
                assert(tp.prod_evals()[i as int][k as int].len() != 2);
                return false;
            }
            k = k + 1;
        }
        i = i + 1;
    }
    let mut i: usize = 0;
    while i < nl
        invariant
            i <= nl,
            er.len() == np + nl,
            tp.prod_specs_eval.len() == np,
            tp.logup_specs_eval.len() == nl,
            tp.proofs.len() + 1 >= m,
            m == seq_max(er@),
            forall|j: int|
                0 <= j < np ==> (#[trigger] tp.prod_evals()[j]).len() + 1 >= er@[j] && forall|k: int|
                    0 <= k < er@[j] - 1 ==> (#[trigger] tp.prod_evals()[j][k]).len() == 2,
            forall|j: int|
                0 <= j < i ==> (#[trigger] tp.logup_evals()[j]).len() + 1 >= er@[np + j] && forall|k: int|
                    0 <= k < er@[np + j] - 1 ==> (#[trigger] tp.logup_evals()[j][k]).len() == 4,
        decreases nl - i,
    {
        let ev = &tp.logup_specs_eval[i];
        assert(tp.logup_evals()[i as int] == crate::mle::tables(ev@));
        if er[np + i] >= 1 && ev.len() < er[np + i] - 1 {
            return false;
        }
        let mut k: usize = 0;
        while k + 1 < er[np + i]
            invariant
                k + 1 <= er@[np + i] || k == 0,
                i < nl,
                er.len() == np + nl,
                tp.logup_specs_eval.len() == nl,
                ev.len() + 1 >= er@[np + i],
                tp.logup_evals()[i as int] == crate::mle::tables(ev@),
                forall|q: int| 0 <= q < k ==> (#[trigger] tp.logup_evals()[i as int][q]).len() == 4,
            decreases er@[np + i] - k,
        {
            if ev[k].len() != 4 {
                assert(tp.logup_evals()[i as int][k as int].len() != 4);
                return false;
            }
            k = k + 1;
        }
        i = i + 1;
    }
    proof {
        assert(tp.rounds().len() == tp.proofs.len());
    }
    true
}

/// The facts every per-round helper relies on.
pub open spec fn round_ctx_ok(tp: TowerProofs, er: Seq<usize>, np: nat, nl: nat, alpha: Seq<Ext>) -> bool {
    &&& er.len() == np + nl
    &&& tp.prod_specs_eval.len() == np
    &&& tp.logup_specs_eval.len() == nl
    &&& alpha.len() == np + 2 * nl
    &&& proof_shape_ok(tp, er, np, nl)
}

fn prod_expected_exec(tp: &TowerProofs, er: &Vec<usize>, alpha: &Vec<Ext>, eqv: Ext, round: usize, np: usize, nl: usize) -> (v: Ext)
    requires
        round_ctx_ok(*tp, er@, np as nat, nl as nat, alpha@),
    ensures
        v == prod_expected(*tp, er@, alpha@, eqv, round as int, np as nat),
{
    let mut acc = Ext::zero();
    let mut i: usize = 0;
    while i < np
        invariant
            i <= np,
            round_ctx_ok(*tp, er@, np as nat, nl as nat, alpha@),
            acc == prod_expected(*tp, er@, alpha@, eqv, round as int, i as nat),
        decreases np - i,
    {
        let c = if round < er[i] && er[i] - round >= 2 {
            assert(tp.prod_evals()[i as int].len() + 1 >= er@[i as int]);
            assert(tp.prod_evals()[i as int][round as int].len() == 2);
            let e = &tp.prod_specs_eval[i][round];
            Ext::one().mul(e[0]).mul(e[1])
        } else {
            Ext::zero()
        };
        acc = acc.add(eqv.mul(alpha[i]).mul(c));
        i = i + 1;
    }
    acc
}

fn logup_expected_exec(tp: &TowerProofs, er: &Vec<usize>, alpha: &Vec<Ext>, eqv: Ext, round: usize, np: usize, nl: usize) -> (v: Ext)
    requires
        round_ctx_ok(*tp, er@, np as nat, nl as nat, alpha@),
    ensures
        v == logup_expected(*tp, er@, alpha@, eqv, round as int, np as nat, nl as nat),
{
    let mut acc = Ext::zero();
    let mut i: usize = 0;
    while i < nl
        invariant
            i <= nl,
            round_ctx_ok(*tp, er@, np as nat, nl as nat, alpha@),
            acc == logup_expected(*tp, er@, alpha@, eqv, round as int, np as nat, i as nat),
        decreases nl - i,
    {
        assert(np + i < er.len());
        assert(np + 2 * i + 1 < alpha.len());
        let c = if round < er[np + i] && er[np + i] - round >= 2 {
            assert(tp.logup_evals()[i as int].len() + 1 >= er@[np + i]);
            assert(tp.logup_evals()[i as int][round as int].len() == 4);
            let e = &tp.logup_specs_eval[i][round];
            let an = alpha[np + 2 * i];
            let ad = alpha[np + 2 * i + 1];
            an.mul(e[0].mul(e[3]).add(e[1].mul(e[2]))).add(ad.mul(e[2].mul(e[3])))
        } else {
            Ext::zero()
        };
        acc = acc.add(eqv.mul(c));
        i = i + 1;
    }
    acc
}

fn prod_next_exec(tp: &TowerProofs, er: &Vec<usize>, alpha: &Vec<Ext>, r: Ext, round: usize, np: usize, nl: usize) -> (v: Ext)
    requires
        round_ctx_ok(*tp, er@, np as nat, nl as nat, alpha@),
    ensures
        v == prod_next(*tp, er@, alpha@, r, round as int, np as nat),
{
    let mut acc = Ext::zero();
    let mut i: usize = 0;
    while i < np
        invariant
            i <= np,
            round_ctx_ok(*tp, er@, np as nat, nl as nat, alpha@),
            acc == prod_next(*tp, er@, alpha@, r, round as int, i as nat),
        decreases np - i,
    {
        let c = if round < er[i] && er[i] - round >= 3 {
            assert(tp.prod_evals()[i as int].len() + 1 >= er@[i as int]);
            assert(tp.prod_evals()[i as int][round as int].len() == 2);
            let e = &tp.prod_specs_eval[i][round];
            alpha[i].mul(merge_exec(e[0], e[1], r))
        } else {
            Ext::zero()
        };
        acc = acc.add(c);
        i = i + 1;
    }
    acc
}

fn logup_next_exec(tp: &TowerProofs, er: &Vec<usize>, alpha: &Vec<Ext>, r: Ext, round: usize, np: usize, nl: usize) -> (v: Ext)
    requires
        round_ctx_ok(*tp, er@, np as nat, nl as nat, alpha@),
    ensures
        v == logup_next(*tp, er@, alpha@, r, round as int, np as nat, nl as nat),
{
    let mut acc = Ext::zero();
    let mut i: usize = 0;
    while i < nl
        invariant
            i <= nl,
            round_ctx_ok(*tp, er@, np as nat, nl as nat, alpha@),
            acc == logup_next(*tp, er@, alpha@, r, round as int, np as nat, i as nat),
        decreases nl - i,
    {
        assert(np + i < er.len());
        assert(np + 2 * i + 1 < alpha.len());
        let c = if round < er[np + i] && er[np + i] - round >= 3 {
            assert(tp.logup_evals()[i as int].len() + 1 >= er@[np + i]);
            assert(tp.logup_evals()[i as int][round as int].len() == 4);
            let e = &tp.logup_specs_eval[i][round];
            alpha[np + 2 * i].mul(merge_exec(e[0], e[1], r)).add(
                alpha[np + 2 * i + 1].mul(merge_exec(e[2], e[3], r)),
            )
        } else {
            Ext::zero()
        };
        acc = acc.add(c);
        i = i + 1;
    }
    acc
}

fn freeze_prod(prod: &mut Vec<PointAndEval>, tp: &TowerProofs, er: &Vec<usize>, np: usize, nl: usize, alpha: &Vec<Ext>, point: &Vec<Ext>, r: Ext, j: usize)
    requires
        round_ctx_ok(*tp, er@, np as nat, nl as nat, alpha@),
        old(prod).len() == np,
    ensures
        final(prod).len() == np,
        claims(final(prod)@) == Seq::new(
            np as nat,
            |i: int|
                if is_active(er@[i], j as int) {
                    (point@, merge(tp.prod_evals()[i][j as int][0], tp.prod_evals()[i][j as int][1], r))
                } else {
                    claims(old(prod)@)[i]
                },
        ),
{
    let ghost before = claims(prod@);
    let mut i: usize = 0;
    while i < np
        invariant
            i <= np,
            prod.len() == np,
            before.len() == np,
            round_ctx_ok(*tp, er@, np as nat, nl as nat, alpha@),
            forall|k: int|
                0 <= k < i ==> #[trigger] claims(prod@)[k] == (if is_active(er@[k], j as int) {
                    (point@, merge(tp.prod_evals()[k][j as int][0], tp.prod_evals()[k][j as int][1], r))
                } else {
                    before[k]
                }),
            forall|k: int| i <= k < np ==> #[trigger] claims(prod@)[k] == before[k],
        decreases np - i,
    {
        if j < er[i] && er[i] - j >= 2 {
            assert(tp.prod_evals()[i as int].len() + 1 >= er@[i as int]);
            assert(tp.prod_evals()[i as int][j as int].len() == 2);
            let e = &tp.prod_specs_eval[i][j];
            let m = merge_exec(e[0], e[1], r);
            let ghost pre = claims(prod@);
            prod.set(i, PointAndEval::new(copy_table(point), m));
            proof {
                assert forall|k: int| 0 <= k < np && k != i implies #[trigger] claims(prod@)[k] == pre[k] by {}
                assert(claims(prod@)[i as int] == (point@, m));
            }
        }
        i = i + 1;
    }
    proof {
        assert(claims(prod@) =~= Seq::new(
            np as nat,
            |i: int|
                if is_active(er@[i], j as int) {
                    (point@, merge(tp.prod_evals()[i][j as int][0], tp.prod_evals()[i][j as int][1], r))
                } else {
                    before[i]
                },
        ));
    }
}

fn freeze_logup(lp: &mut Vec<PointAndEval>, lq: &mut Vec<PointAndEval>, tp: &TowerProofs, er: &Vec<usize>, np: usize, nl: usize, alpha: &Vec<Ext>, point: &Vec<Ext>, r: Ext, j: usize)
    requires
        round_ctx_ok(*tp, er@, np as nat, nl as nat, alpha@),
        old(lp).len() == nl,
        old(lq).len() == nl,
    ensures
        final(lp).len() == nl,
        final(lq).len() == nl,
        claims(final(lp)@) == Seq::new(
            nl as nat,
            |i: int|
                if is_active(er@[np + i], j as int) {
                    (point@, merge(tp.logup_evals()[i][j as int][0], tp.logup_evals()[i][j as int][1], r))
                } else {
                    claims(old(lp)@)[i]
                },
        ),
        claims(final(lq)@) == Seq::new(
            nl as nat,
            |i: int|
                if is_active(er@[np + i], j as int) {
                    (point@, merge(tp.logup_evals()[i][j as int][2], tp.logup_evals()[i][j as int][3], r))
                } else {
                    claims(old(lq)@)[i]
                },
        ),
{
    let ghost bp = claims(lp@);
    let ghost bq = claims(lq@);
    let mut i: usize = 0;
    while i < nl
        invariant
            i <= nl,
            lp.len() == nl,
            lq.len() == nl,
            bp.len() == nl,
            bq.len() == nl,
            round_ctx_ok(*tp, er@, np as nat, nl as nat, alpha@),
            forall|k: int|
                0 <= k < i ==> #[trigger] claims(lp@)[k] == (if is_active(er@[np + k], j as int) {
                    (point@, merge(tp.logup_evals()[k][j as int][0], tp.logup_evals()[k][j as int][1], r))
                } else {
                    bp[k]
                }),
            forall|k: int|
                0 <= k < i ==> #[trigger] claims(lq@)[k] == (if is_active(er@[np + k], j as int) {
                    (point@, merge(tp.logup_evals()[k][j as int][2], tp.logup_evals()[k][j as int][3], r))
                } else {
                    bq[k]
                }),
            forall|k: int| i <= k < nl ==> #[trigger] claims(lp@)[k] == bp[k],
            forall|k: int| i <= k < nl ==> #[trigger] claims(lq@)[k] == bq[k],
        decreases nl - i,
    {
        assert(np + i < er.len());
        if j < er[np + i] && er[np + i] - j >= 2 {
            assert(tp.logup_evals()[i as int].len() + 1 >= er@[np + i]);
            assert(tp.logup_evals()[i as int][j as int].len() == 4);
            let e = &tp.logup_specs_eval[i][j];
            let pm = merge_exec(e[0], e[1], r);
            let qm = merge_exec(e[2], e[3], r);
            let ghost pre_p = claims(lp@);
            let ghost pre_q = claims(lq@);
            lp.set(i, PointAndEval::new(copy_table(point), pm));
            lq.set(i, PointAndEval::new(copy_table(point), qm));
            proof {
                assert forall|k: int| 0 <= k < nl && k != i implies #[trigger] claims(lp@)[k] == pre_p[k] by {}
                assert forall|k: int| 0 <= k < nl && k != i implies #[trigger] claims(lq@)[k] == pre_q[k] by {}
                assert(claims(lp@)[i as int] == (point@, pm));
                assert(claims(lq@)[i as int] == (point@, qm));
            }
        }
        i = i + 1;
    }
    proof {
        assert(claims(lp@) =~= Seq::new(
            nl as nat,
            |i: int|
                if is_active(er@[np + i], j as int) {
                    (point@, merge(tp.logup_evals()[i][j as int][0], tp.logup_evals()[i][j as int][1], r))
                } else {
                    bp[i]
                },
        ));
        assert(claims(lq@) =~= Seq::new(
            nl as nat,
            |i: int|
                if is_active(er@[np + i], j as int) {
                    (point@, merge(tp.logup_evals()[i][j as int][2], tp.logup_evals()[i][j as int][3], r))
                } else {
                    bq[i]
                },
        ));
    }
}

fn initial_claim_exec(prod_out: &Vec<Vec<Ext>>, logup_out: &Vec<Vec<Ext>>, er: &Vec<usize>, alpha: &Vec<Ext>, rt: &Vec<Ext>) -> (c: Ext)
    requires
        rt.len() == 1,
        er.len() == prod_out.len() + logup_out.len(),
        alpha.len() == prod_out.len() + 2 * logup_out.len(),
        forall|i: int| 0 <= i < prod_out.len() ==> (#[trigger] prod_out@[i]).len() == 2,
        forall|i: int| 0 <= i < logup_out.len() ==> (#[trigger] logup_out@[i]).len() == 4,
    ensures
        c == ext_add(
            prod_initial(tables(prod_out@), er@, alpha@, rt@, prod_out.len() as nat),
            logup_initial(tables(logup_out@), er@, alpha@, rt@, prod_out.len() as nat, logup_out.len() as nat),
        ),
{
    let np = prod_out.len();
    let nl = logup_out.len();
    assert(cube_size(0) == 1);
    assert(cube_size(1) == 2);
    let mut pa = Ext::zero();
    let mut i: usize = 0;
    while i < np
        invariant
            i <= np,
            np == prod_out.len(),
            rt.len() == 1,
            cube_size(1) == 2,
            alpha.len() == np + 2 * nl,
            forall|k: int| 0 <= k < prod_out.len() ==> (#[trigger] prod_out@[k]).len() == 2,
            er.len() == np + nl,
            pa == prod_initial(tables(prod_out@), er@, alpha@, rt@, i as nat),
        decreases np - i,
    {
        if er[i] >= 2 {
            let v = evaluate(&prod_out[i], rt);
            pa = pa.add(v.mul(alpha[i]));
        }
        i = i + 1;
    }
    let mut la = Ext::zero();
    let mut i: usize = 0;
    while i < nl
        invariant
            i <= nl,
            np == prod_out.len(),
            nl == logup_out.len(),
            rt.len() == 1,
            cube_size(1) == 2,
            alpha.len() == np + 2 * nl,
            forall|k: int| 0 <= k < logup_out.len() ==> (#[trigger] logup_out@[k]).len() == 4,
            er.len() == np + nl,
            la == logup_initial(tables(logup_out@), er@, alpha@, rt@, np as nat, i as nat),
        decreases nl - i,
    {
        if er[np + i] >= 2 {
            let e = &logup_out[i];
            let pv = vec![e[0], e[1]];
            let qv = vec![e[2], e[3]];
            proof {
                assert(pv@ =~= seq![e@[0], e@[1]]);
                assert(qv@ =~= seq![e@[2], e@[3]]);
            }
            let p = evaluate(&pv, rt);
            let q = evaluate(&qv, rt);
            la = la.add(p.mul(alpha[np + 2 * i]).add(q.mul(alpha[np + 2 * i + 1])));
        }
        i = i + 1;
    }
    pa.add(la)
}

/// The verifier's running state in executable form.
struct VerifierState {
    point: Vec<Ext>,
    claim: Ext,
    alpha: Vec<Ext>,
    prod: Vec<PointAndEval>,
    logup_p: Vec<PointAndEval>,
    logup_q: Vec<PointAndEval>,
}

impl VerifierState {
    spec fn view_at(&self, state: Ext) -> VerifierView {
        VerifierView {
            point: self.point@,
            claim: self.claim,
            alpha: self.alpha@,
            prod: claims(self.prod@),
            logup_p: claims(self.logup_p@),
            logup_q: claims(self.logup_q@),
            state,
        }
    }

    spec fn sized(&self, np: nat, nl: nat, j: nat) -> bool {
        &&& self.point.len() == j + 1
        &&& self.alpha.len() == np + 2 * nl
        &&& self.prod.len() == np
        &&& self.logup_p.len() == nl
        &&& self.logup_q.len() == nl
    }
}

fn verify_round(
    tp: &TowerProofs,
    er: &Vec<usize>,
    np: usize,
    nl: usize,
    st: VerifierState,
    j: usize,
    transcript: &mut Transcript,
) -> (res: Result<VerifierState, TowerVerifyError>)
    requires
        round_ctx_ok(*tp, er@, np as nat, nl as nat, st.alpha@),
        st.sized(np as nat, nl as nat, j as nat),
        j + 1 < seq_max(er@),
    ensures
        match res {
            Ok(st2) => {
                &&& st2.sized(np as nat, nl as nat, (j + 1) as nat)
                &&& verifier_step(*tp, er@, np as nat, nl as nat, st.view_at(old(transcript).state), j as int)
                    == Ok::<VerifierView, TowerVerifyError>(st2.view_at(final(transcript).state))
            },
            Err(e) => verifier_step(*tp, er@, np as nat, nl as nat, st.view_at(old(transcript).state), j as int)
                == Err::<VerifierView, TowerVerifyError>(e),
        },
{
    let ghost v = st.view_at(transcript.state);
    let ghost s = transcript.state;
    let msgs = &tp.proofs[j];
    assert(tp.rounds()[j as int] == tables(msgs@));
    let sc = match verify_sumcheck(st.claim, msgs, j + 1, transcript) {
        Ok(sc) => sc,
        Err(e) => {
            return Err(TowerVerifyError::Sumcheck(e));
        },
    };
    let eqv = eq_eval_exec(&st.point, &sc.point);
    let expected = prod_expected_exec(tp, er, &st.alpha, eqv, j, np, nl).add(
        logup_expected_exec(tp, er, &st.alpha, eqv, j, np, nl),
    );
    if expected != sc.expected_evaluation {
        return Err(TowerVerifyError::TowerEvaluationMismatch);
    }
    let r = transcript.get_challenge();
    let mut point = copy_table(&sc.point);
    point.push(r);
    let alpha = transcript.get_challenge_pows(np + 2 * nl);
    let claim = prod_next_exec(tp, er, &alpha, r, j, np, nl).add(logup_next_exec(tp, er, &alpha, r, j, np, nl));
    let mut prod = st.prod;
    let mut logup_p = st.logup_p;
    let mut logup_q = st.logup_q;
    freeze_prod(&mut prod, tp, er, np, nl, &alpha, &point, r, j);
    freeze_logup(&mut logup_p, &mut logup_q, tp, er, np, nl, &alpha, &point, r, j);
    let st2 = VerifierState { point, claim, alpha, prod, logup_p, logup_q };
    proof {
        let w = verifier_step(*tp, er@, np as nat, nl as nat, v, j as int);
        assert(w is Ok);
        let w2 = w->Ok_0;
        assert(w2.point =~= st2.point@);
        assert(w2.prod =~= claims(st2.prod@));
        assert(w2.logup_p =~= claims(st2.logup_p@));
        assert(w2.logup_q =~= claims(st2.logup_q@));
        assert(w2 == st2.view_at(transcript.state));
    }
    Ok(st2)
}

proof fn lemma_run_err(
    tp: TowerProofs,
    er: Seq<usize>,
    np: nat,
    nl: nat,
    v0: VerifierView,
    k1: nat,
    k2: nat,
)
    requires
        k1 <= k2,
        verifier_run(tp, er, np, nl, v0, k1) is Err,
    ensures
        verifier_run(tp, er, np, nl, v0, k2) == verifier_run(tp, er, np, nl, v0, k1),
    decreases k2,
{
    if k2 > k1 {
        lemma_run_err(tp, er, np, nl, v0, k1, (k2 - 1) as nat);
    }
}

fn no_claims_exec(n: usize) -> (v: Vec<PointAndEval>)
    ensures
        v.len() == n,
        claims(v@) == no_claims(n as nat),
{
    let mut v: Vec<PointAndEval> = Vec::new();
    let mut i: usize = 0;
    while i < n
        invariant
            i <= n,
            v.len() == i,
            claims(v@) == no_claims(i as nat),
        decreases n - i,
    {
        let ghost pre = claims(v@);
        v.push(PointAndEval::empty());
        i = i + 1;
        proof {
            assert(v@[i - 1].point@ =~= Seq::<Ext>::empty());
            assert forall|k: int| 0 <= k < i - 1 implies #[trigger] claims(v@)[k] == pre[k] by {}
            assert(claims(v@) =~= no_claims(i as nat));
        }
    }
    v
}

impl TowerVerify {
    /// Verifies a tower proof against the root values of every spec (`[e0, e1]` per
    /// product spec, `[p1, p2, q1, q2]` per logup spec), where spec `i` (product specs
    /// first) has `expected_rounds[i]` layers. Returns the final point and, per spec, the
    /// claim about its leaf layer that the proof reduces to.
    pub fn verify(
        prod_out_evals: Vec<Vec<Ext>>,
        logup_out_evals: Vec<Vec<Ext>>,
        tower_proofs: &TowerProofs,
        expected_rounds: Vec<usize>,
        num_fanin: usize,
        transcript: &mut Transcript,
    ) -> (res: Result<(Vec<Ext>, Vec<PointAndEval>, Vec<PointAndEval>, Vec<PointAndEval>), TowerVerifyError>)
        requires
            num_fanin == 2,
            prod_out_evals.len() == tower_proofs.prod_specs_eval.len(),
            logup_out_evals.len() == tower_proofs.logup_specs_eval.len(),
            forall|i: int| 0 <= i < prod_out_evals.len() ==> (#[trigger] prod_out_evals@[i]).len() == 2,
            forall|i: int| 0 <= i < logup_out_evals.len() ==> (#[trigger] logup_out_evals@[i]).len() == 4,
            expected_rounds.len() == prod_out_evals.len() + logup_out_evals.len(),
            expected_rounds.len() >= 1,
            forall|i: int| 0 <= i < expected_rounds.len() ==> #[trigger] expected_rounds@[i] >= 1,
            prod_out_evals.len() + 2 * logup_out_evals.len() <= usize::MAX,
        ensures
            match tower_verify_spec(
                tables(prod_out_evals@),
                tables(logup_out_evals@),
                *tower_proofs,
                expected_rounds@,
                old(transcript).state,
            ) {
                Ok(v) => {
                    &&& res is Ok
                    &&& res->Ok_0.0@ == v.point
                    &&& claims(res->Ok_0.1@) == v.prod
                    &&& claims(res->Ok_0.2@) == v.logup_p
                    &&& claims(res->Ok_0.3@) == v.logup_q
                    &&& final(transcript).state == v.state
                },
                Err(e) => res is Err && res->Err_0 == e,
            },
    {
        let tp = tower_proofs;
        let er = &expected_rounds;
        let np = prod_out_evals.len();
        let nl = logup_out_evals.len();
        if !shape_ok_exec(tp, er, np, nl) {
            return Err(TowerVerifyError::MalformedProof);
        }
        let ghost s0 = transcript.state;
        let alpha = transcript.get_challenge_pows(np + 2 * nl);
        let mut rt: Vec<Ext> = Vec::new();
        rt.push(transcript.get_challenge());
        let claim = initial_claim_exec(&prod_out_evals, &logup_out_evals, er, &alpha, &rt);
        let prod = no_claims_exec(np);
        let logup_p = no_claims_exec(nl);
        let logup_q = no_claims_exec(nl);
        let mut st = VerifierState { point: rt, claim, alpha, prod, logup_p, logup_q };
        let ghost v0 = verifier_init(tables(prod_out_evals@), tables(logup_out_evals@), expected_rounds@, s0);
        proof {
            assert(st.point@ =~= v0.point);
            assert(st.view_at(transcript.state) == v0);
        }
        let m = seq_max_exec(er);
        assert(er@[0] <= m);
        let total = m - 1;
        let mut j: usize = 0;
        while j < total
            invariant
                total + 1 == seq_max(er@),
                j <= total,
                s0 == old(transcript).state,
                er@ == expected_rounds@,
                *tp == *tower_proofs,
                v0 == verifier_init(tables(prod_out_evals@), tables(logup_out_evals@), expected_rounds@, s0),
                proof_shape_ok(*tp, er@, np as nat, nl as nat),
                np == prod_out_evals.len(),
                nl == logup_out_evals.len(),
                round_ctx_ok(*tp, er@, np as nat, nl as nat, st.alpha@),
                st.sized(np as nat, nl as nat, j as nat),
                verifier_run(*tp, er@, np as nat, nl as nat, v0, j as nat)
                    == Ok::<VerifierView, TowerVerifyError>(st.view_at(transcript.state)),
            decreases total - j,
        {
            match verify_round(tp, er, np, nl, st, j, transcript) {
                Ok(st2) => {
                    st = st2;
                },
                Err(e) => {
                    proof {
                        assert(verifier_run(*tp, er@, np as nat, nl as nat, v0, (j + 1) as nat) == Err::<VerifierView, TowerVerifyError>(e));
                        lemma_run_err(*tp, er@, np as nat, nl as nat, v0, (j + 1) as nat, total as nat);
                        assert(tables(prod_out_evals@).len() == np);
                        assert(tables(logup_out_evals@).len() == nl);
                        assert(tower_verify_spec(
                            tables(prod_out_evals@),
                            tables(logup_out_evals@),
                            *tower_proofs,
                            expected_rounds@,
                            s0,
                        ) == Err::<VerifierView, TowerVerifyError>(e));
                    }
                    return Err(e);
                },
            }
            j = j + 1;
        }
        Ok((st.point, st.prod, st.logup_p, st.logup_q))
    }
}

/// The numerator claim of the fixed lookup table (the first logup spec) must be one: its
/// leaf numerators are all one.
pub fn check_lookup_table_witness(logup_p_evals: &Vec<PointAndEval>) -> (res: Result<(), TowerVerifyError>)
    requires
        logup_p_evals.len() >= 1,
    ensures
        res is Ok <==> logup_p_evals@[0].eval == ext_one(),
        res is Err ==> res->Err_0 == TowerVerifyError::LookupTableWitnessNotOne,
{
    if logup_p_evals[0].eval != Ext::one() {
        return Err(TowerVerifyError::LookupTableWitnessNotOne);
    }
    Ok(())
}


/// Number of layers of each spec, in order.
pub open spec fn layer_counts(specs: Seq<TowerProverSpec>) -> Seq<usize> {
    Seq::new(specs.len(), |i: int| specs[i].layers().len() as usize)
}

proof fn lemma_seq_max_concat(a: Seq<usize>, b: Seq<usize>)
    ensures
        seq_max(a + b) == if seq_max(a) > seq_max(b) { seq_max(a) } else { seq_max(b) },
    decreases b.len(),
{
    if b.len() == 0 {
        assert(a + b =~= a);
    } else {
        assert((a + b).drop_last() =~= a + b.drop_last());
        lemma_seq_max_concat(a, b.drop_last());
    }
}

proof fn lemma_seq_max_counts(specs: Seq<TowerProverSpec>)
    requires
        forall|i: int| 0 <= i < specs.len() ==> (#[trigger] specs[i].layers()).len() <= usize::MAX,
    ensures
        seq_max(layer_counts(specs)) == max_layers(specs),
    decreases specs.len(),
{
    if specs.len() > 0 {
        assert(layer_counts(specs).drop_last() =~= layer_counts(specs.drop_last()));
        assert forall|i: int| 0 <= i < specs.drop_last().len() implies (#[trigger] specs.drop_last()[i].layers()).len()
            <= usize::MAX by {
            assert(specs.drop_last()[i] == specs[i]);
        }
        lemma_seq_max_counts(specs.drop_last());
        assert(specs.last().layers().len() <= usize::MAX);
    }
}

proof fn lemma_run_ok_prefix(
    tp: TowerProofs,
    er: Seq<usize>,
    np: nat,
    nl: nat,
    v0: VerifierView,
    k1: nat,
    k2: nat,
)
    requires
        k1 <= k2,
        verifier_run(tp, er, np, nl, v0, k2) is Ok,
    ensures
        verifier_run(tp, er, np, nl, v0, k1) is Ok,
{
    if verifier_run(tp, er, np, nl, v0, k1) is Err {
        lemma_run_err(tp, er, np, nl, v0, k1, k2);
    }
}

/// While it accepts, the verifier walks through the same points, batching powers and
/// transcript states as the prover.
proof fn lemma_run_tracks_prover(
    prod: Seq<TowerProverSpec>,
    logup: Seq<TowerProverSpec>,
    s0: Ext,
    point: Seq<Ext>,
    proofs: TowerProofs,
    prod_out: Seq<Seq<Ext>>,
    logup_out: Seq<Seq<Ext>>,
    er: Seq<usize>,
    k: nat,
)
    requires
        prove_outcome(prod, logup, s0, point, proofs),
        prod_out.len() == prod.len(),
        logup_out.len() == logup.len(),
        k < tower_height(prod, logup),
        verifier_run(proofs, er, prod.len(), logup.len(), verifier_init(prod_out, logup_out, er, s0), k) is Ok,
    ensures
        ({
            let v = verifier_run(proofs, er, prod.len(), logup.len(), verifier_init(prod_out, logup_out, er, s0), k)->Ok_0;
            let w = prover_after(prod, logup, s0, k);
            v.point == w.point && v.alpha == w.alpha && v.state == w.state
        }),
    decreases k,
{
    let v0 = verifier_init(prod_out, logup_out, er, s0);
    if k > 0 {
        lemma_run_ok_prefix(proofs, er, prod.len(), logup.len(), v0, (k - 1) as nat, k);
        lemma_run_tracks_prover(prod, logup, s0, point, proofs, prod_out, logup_out, er, (k - 1) as nat);
        assert(proofs.rounds()[k - 1] == crate::tower_prover::round_messages(
            prod,
            logup,
            prover_after(prod, logup, s0, (k - 1) as nat),
            k as int,
        ));
    }
}

/// The point half of the round trip: whenever the verifier accepts the proof the
/// prover made from the same transcript state, for towers of the layer counts the
/// prover saw, it returns the prover's final point.
pub proof fn accepted_proof_ends_at_prover_point(
    prod: Seq<TowerProverSpec>,
    logup: Seq<TowerProverSpec>,
    s0: Ext,
    point: Seq<Ext>,
    proofs: TowerProofs,
    prod_out: Seq<Seq<Ext>>,
    logup_out: Seq<Seq<Ext>>,
)
    requires
        prod.len() >= 1,
        specs_shape_ok(prod, 2),
        specs_shape_ok(logup, 4),
        forall|i: int| 0 <= i < prod.len() ==> (#[trigger] prod[i].layers()).len() <= usize::MAX,
        forall|i: int| 0 <= i < logup.len() ==> (#[trigger] logup[i].layers()).len() <= usize::MAX,
        prove_outcome(prod, logup, s0, point, proofs),
        prod_out.len() == prod.len(),
        logup_out.len() == logup.len(),
        tower_verify_spec(prod_out, logup_out, proofs, layer_counts(prod) + layer_counts(logup), s0) is Ok,
    ensures
        tower_verify_spec(prod_out, logup_out, proofs, layer_counts(prod) + layer_counts(logup), s0)->Ok_0.point
            == point,
{
    let er = layer_counts(prod) + layer_counts(logup);
    lemma_seq_max_concat(layer_counts(prod), layer_counts(logup));
    lemma_seq_max_counts(prod);
    lemma_seq_max_counts(logup);
    assert(tower_shape_ok(prod[0].layers(), 2));
    crate::tower_prover::lemma_max_layers_bound(prod, 0);
    let h = tower_height(prod, logup);
    assert(seq_max(er) == h);
    lemma_run_tracks_prover(prod, logup, s0, point, proofs, prod_out, logup_out, er, (h - 1) as nat);
}

} // verus!
