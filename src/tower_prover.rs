use crate::field::Ext;
use crate::mle::{build_eq, copy_table, cube_size, eq_table, mle_eval, tables};
use crate::sumcheck::{prove_batched, sc_messages, sc_point, sc_state, SumcheckTerm};
use crate::tower_proof::TowerProofs;
use crate::transcript::{powers, squeeze, Transcript};
use crate::witness::layers;
use vstd::prelude::*;

verus! {

/// The layers of one claim group, root first: a product spec has two tables per layer,
/// a logup spec four (`p1, p2, q1, q2`); layer `r` has tables of `2^r` entries.
pub struct TowerProverSpec {
    pub witness: Vec<Vec<Vec<Ext>>>,
}

pub struct TowerProver;

impl TowerProverSpec {
    pub open spec fn layers(&self) -> Seq<Seq<Seq<Ext>>> {
        layers(self.witness@)
    }
}

/// At least one layer; layer `r` holds `width` tables of `2^r` entries.
pub open spec fn tower_shape_ok(w: Seq<Seq<Seq<Ext>>>, width: nat) -> bool {
    &&& w.len() >= 1
    &&& forall|r: int| 0 <= r < w.len() ==> (#[trigger] w[r]).len() == width
    &&& forall|r: int, b: int|
        0 <= r < w.len() && 0 <= b < width ==> (#[trigger] w[r][b]).len() == cube_size(r as nat)
}

pub open spec fn specs_shape_ok(specs: Seq<TowerProverSpec>, width: nat) -> bool {
    forall|i: int| 0 <= i < specs.len() ==> tower_shape_ok(#[trigger] specs[i].layers(), width)
}

/// Entry `k` of a spec's record: the values of its layer `k + 1` at the recorded point
/// with the last coordinate (the merge challenge) dropped; that point has `k + 2`
/// coordinates.
pub open spec fn round_record_ok(
    w: Seq<Seq<Seq<Ext>>>,
    evals: Seq<Seq<Ext>>,
    points: Seq<Seq<Ext>>,
    width: nat,
    k: int,
) -> bool {
    &&& points[k].len() == k + 2
    &&& evals[k] == Seq::new(width, |b: int| mle_eval(w[k + 1][b], points[k].drop_last()))
}

/// A spec's record after its first `n` rounds.
pub open spec fn record_ok(
    w: Seq<Seq<Seq<Ext>>>,
    evals: Seq<Seq<Ext>>,
    points: Seq<Seq<Ext>>,
    width: nat,
    n: nat,
) -> bool {
    &&& evals.len() == n
    &&& points.len() == n
    &&& forall|k: int| 0 <= k < n ==> #[trigger] round_record_ok(w, evals, points, width, k)
}

/// Rounds a tower of `layers` layers takes part in, among the first `done` rounds.
pub open spec fn rounds_taken(layers: nat, done: nat) -> nat {
    if done < layers {
        done
    } else {
        (layers - 1) as nat
    }
}

/// The prover's state between rounds: the point, the batching powers and the
/// transcript state.
pub struct ProverView {
    pub point: Seq<Ext>,
    pub alpha: Seq<Ext>,
    pub state: Ext,
}

/// State after the opening draws: the batching powers, then one coordinate of the
/// starting point.
pub open spec fn prover_start(np: nat, nl: nat, s0: Ext) -> ProverView {
    let a = squeeze(s0);
    let r = squeeze(a);
    ProverView { point: seq![r], alpha: powers(a, np + 2 * nl), state: r }
}

/// The sum-check messages of round `round`, from state `v`.
pub open spec fn round_messages(
    prod: Seq<TowerProverSpec>,
    logup: Seq<TowerProverSpec>,
    v: ProverView,
    round: int,
) -> Seq<Seq<Ext>> {
    sc_messages(
        eq_table(v.point),
        logup_batch_mles(prod, logup, round, logup.len()),
        logup_batch_terms(prod, logup, v.alpha, round, logup.len()),
        v.state,
        round as nat,
    )
}

/// State after round `round`: the sum-check point extended by the merge challenge, and
/// fresh batching powers.
pub open spec fn prover_next(
    prod: Seq<TowerProverSpec>,
    logup: Seq<TowerProverSpec>,
    v: ProverView,
    round: int,
) -> ProverView {
    let msgs = round_messages(prod, logup, v, round);
    let r = squeeze(sc_state(v.state, msgs));
    let a = squeeze(r);
    ProverView {
        point: sc_point(v.state, msgs).push(r),
        alpha: powers(a, prod.len() + 2 * logup.len()),
        state: a,
    }
}

/// State after the first `k` rounds, from transcript state `s0`.
pub open spec fn prover_after(
    prod: Seq<TowerProverSpec>,
    logup: Seq<TowerProverSpec>,
    s0: Ext,
    k: nat,
) -> ProverView
    decreases k,
{
    if k == 0 {
        prover_start(prod.len(), logup.len(), s0)
    } else {
        prover_next(prod, logup, prover_after(prod, logup, s0, (k - 1) as nat), k as int)
    }
}

/// Largest number of layers among `specs`.
pub open spec fn max_layers(specs: Seq<TowerProverSpec>) -> nat
    decreases specs.len(),
{
    if specs.len() == 0 {
        0
    } else {
        let m = max_layers(specs.drop_last());
        let l = specs.last().layers().len();
        if l > m {
            l
        } else {
            m
        }
    }
}

/// Tables of round `round` from the first `n` product specs: both tables of its layer
/// `round`, for each spec that has one.
pub open spec fn prod_batch_mles(specs: Seq<TowerProverSpec>, round: int, n: nat) -> Seq<Seq<Ext>>
    decreases n,
{
    if n == 0 {
        Seq::empty()
    } else {
        let prev = prod_batch_mles(specs, round, (n - 1) as nat);
        let w = specs[n - 1].layers();
        if round < w.len() {
            prev.push(w[round][0]).push(w[round][1])
        } else {
            prev
        }
    }
}

/// Terms of round `round` from the first `n` product specs: `alpha_i * eq * f0 * f1`.
pub open spec fn prod_batch_terms(specs: Seq<TowerProverSpec>, alpha: Seq<Ext>, round: int, n: nat) -> Seq<SumcheckTerm>
    decreases n,
{
    if n == 0 {
        Seq::empty()
    } else {
        let prev = prod_batch_terms(specs, alpha, round, (n - 1) as nat);
        let off = prod_batch_mles(specs, round, (n - 1) as nat).len();
        if round < specs[n - 1].layers().len() {
            prev.push(SumcheckTerm { coeff: alpha[n - 1], f: off as usize, g: (off + 1) as usize })
        } else {
            prev
        }
    }
}

/// Tables of round `round`: those of the product specs, then the four tables of layer
/// `round` of each of the first `n` logup specs that has one.
pub open spec fn logup_batch_mles(
    prod: Seq<TowerProverSpec>,
    logup: Seq<TowerProverSpec>,
    round: int,
    n: nat,
) -> Seq<Seq<Ext>>
    decreases n,
{
    if n == 0 {
        prod_batch_mles(prod, round, prod.len())
    } else {
        let prev = logup_batch_mles(prod, logup, round, (n - 1) as nat);
        let w = logup[n - 1].layers();
        if round < w.len() {
            prev.push(w[round][0]).push(w[round][1]).push(w[round][2]).push(w[round][3])
        } else {
            prev
        }
    }
}

/// Terms of round `round`: those of the product specs, then for each of the first `n`
/// logup specs `alpha_n * eq * p1 * q2`, `alpha_n * eq * p2 * q1`, `alpha_d * eq * q1 * q2`.
pub open spec fn logup_batch_terms(
    prod: Seq<TowerProverSpec>,
    logup: Seq<TowerProverSpec>,
    alpha: Seq<Ext>,
    round: int,
    n: nat,
) -> Seq<SumcheckTerm>
    decreases n,
{
    if n == 0 {
        prod_batch_terms(prod, alpha, round, prod.len())
    } else {
        let i = n - 1;
        let prev = logup_batch_terms(prod, logup, alpha, round, (n - 1) as nat);
        let off = logup_batch_mles(prod, logup, round, (n - 1) as nat).len();
        let an = alpha[prod.len() + 2 * i];
        let ad = alpha[prod.len() + 2 * i + 1];
        if round < logup[i].layers().len() {
            prev.push(SumcheckTerm { coeff: an, f: off as usize, g: (off + 3) as usize }).push(
                SumcheckTerm { coeff: an, f: (off + 1) as usize, g: (off + 2) as usize },
            ).push(SumcheckTerm { coeff: ad, f: (off + 2) as usize, g: (off + 3) as usize })
        } else {
            prev
        }
    }
}

/// Tables and terms of round `round`: for every spec that still has layer `round`,
/// its tables, and the terms `alpha * eq * f0 * f1` (product) or
/// `alpha_n * eq * (p1 q2 + p2 q1)` and `alpha_d * eq * q1 q2` (logup). `pos[i]` is where
/// the tables of spec `i` start.
fn build_round_batch(
    prod_specs: &Vec<TowerProverSpec>,
    logup_specs: &Vec<TowerProverSpec>,
    alpha_pows: &Vec<Ext>,
    round: usize,
) -> (out: (Vec<Vec<Ext>>, Vec<SumcheckTerm>, Vec<usize>, Vec<usize>))
    requires
        specs_shape_ok(prod_specs@, 2),
        specs_shape_ok(logup_specs@, 4),
        alpha_pows.len() == prod_specs.len() + 2 * logup_specs.len(),
    ensures
        tables(out.0@) == logup_batch_mles(prod_specs@, logup_specs@, round as int, logup_specs.len() as nat),
        out.1@ == logup_batch_terms(prod_specs@, logup_specs@, alpha_pows@, round as int, logup_specs.len() as nat),
        forall|k: int| 0 <= k < out.0.len() ==> (#[trigger] out.0@[k]).len() == cube_size(round as nat),
        forall|t: int|
            0 <= t < out.1.len() ==> (#[trigger] out.1@[t]).f < out.0.len() && out.1@[t].g < out.0.len(),
        out.2.len() == prod_specs.len(),
        out.3.len() == logup_specs.len(),
        forall|i: int|
            0 <= i < prod_specs.len() && round < prod_specs@[i].layers().len() ==> {
                let p = #[trigger] out.2@[i] as int;
                &&& p + 1 < out.0.len()
                &&& out.0@[p]@ == prod_specs@[i].layers()[round as int][0]
                &&& out.0@[p + 1]@ == prod_specs@[i].layers()[round as int][1]
            },
        forall|i: int|
            0 <= i < logup_specs.len() && round < logup_specs@[i].layers().len() ==> {
                let p = #[trigger] out.3@[i] as int;
                &&& p + 3 < out.0.len()
                &&& out.0@[p]@ == logup_specs@[i].layers()[round as int][0]
                &&& out.0@[p + 1]@ == logup_specs@[i].layers()[round as int][1]
                &&& out.0@[p + 2]@ == logup_specs@[i].layers()[round as int][2]
                &&& out.0@[p + 3]@ == logup_specs@[i].layers()[round as int][3]
            },
{
    let mut mles: Vec<Vec<Ext>> = Vec::new();
    let mut terms: Vec<SumcheckTerm> = Vec::new();
    let mut prod_pos: Vec<usize> = Vec::new();
    let mut logup_pos: Vec<usize> = Vec::new();
    let np = prod_specs.len();
    let mut i: usize = 0;
    while i < np
        invariant
            np == prod_specs.len(),
            i <= np,
            specs_shape_ok(prod_specs@, 2),
            alpha_pows.len() == prod_specs.len() + 2 * logup_specs.len(),
            prod_pos.len() == i,
            tables(mles@) == prod_batch_mles(prod_specs@, round as int, i as nat),
            terms@ == prod_batch_terms(prod_specs@, alpha_pows@, round as int, i as nat),
            forall|k: int| 0 <= k < mles.len() ==> (#[trigger] mles@[k]).len() == cube_size(round as nat),
            forall|t: int|
                0 <= t < terms.len() ==> (#[trigger] terms@[t]).f < mles.len() && terms@[t].g < mles.len(),
            forall|j: int|
                0 <= j < i && round < prod_specs@[j].layers().len() ==> {
                    let p = #[trigger] prod_pos@[j] as int;
                    &&& p + 1 < mles.len()
                    &&& mles@[p]@ == prod_specs@[j].layers()[round as int][0]
                    &&& mles@[p + 1]@ == prod_specs@[j].layers()[round as int][1]
                },
        decreases np - i,
    {
        let w = &prod_specs[i].witness;
        let p = mles.len();
        if round < w.len() {
            assert(tower_shape_ok(prod_specs@[i as int].layers(), 2));
            assert(prod_specs@[i as int].layers()[round as int] == tables(w@[round as int]@));
            assert(w@[round as int].len() == 2);
            let ghost l0 = prod_specs@[i as int].layers()[round as int][0];
            let ghost l1 = prod_specs@[i as int].layers()[round as int][1];
            assert(l0.len() == cube_size(round as nat));
            assert(l1.len() == cube_size(round as nat));
            let ghost before = mles@;
            mles.push(copy_table(&w[round][0]));
            mles.push(copy_table(&w[round][1]));
            let g = mles.len() - 1;
            terms.push(SumcheckTerm { coeff: alpha_pows[i], f: p, g });
            proof {
                assert(tables(mles@) =~= tables(before).push(l0).push(l1));
            }
            proof {
                assert forall|j: int|
                    0 <= j < i && round < prod_specs@[j].layers().len() implies {
                        let q = #[trigger] prod_pos@[j] as int;
                        &&& q + 1 < mles.len()
                        &&& mles@[q]@ == prod_specs@[j].layers()[round as int][0]
                        &&& mles@[q + 1]@ == prod_specs@[j].layers()[round as int][1]
                    } by {
                    let q = prod_pos@[j] as int;
                    assert(mles@[q] == before[q]);
                    assert(mles@[q + 1] == before[q + 1]);
                }
            }
        }
        prod_pos.push(p);
        i = i + 1;
    }
    let nl = logup_specs.len();
    let mut i: usize = 0;
    while i < nl
        invariant
            nl == logup_specs.len(),
            np == prod_specs.len(),
            i <= nl,
            specs_shape_ok(logup_specs@, 4),
            alpha_pows.len() == prod_specs.len() + 2 * logup_specs.len(),
            prod_pos.len() == np,
            logup_pos.len() == i,
            tables(mles@) == logup_batch_mles(prod_specs@, logup_specs@, round as int, i as nat),
            terms@ == logup_batch_terms(prod_specs@, logup_specs@, alpha_pows@, round as int, i as nat),
            forall|k: int| 0 <= k < mles.len() ==> (#[trigger] mles@[k]).len() == cube_size(round as nat),
            forall|t: int|
                0 <= t < terms.len() ==> (#[trigger] terms@[t]).f < mles.len() && terms@[t].g < mles.len(),
            forall|j: int|
                0 <= j < np && round < prod_specs@[j].layers().len() ==> {
                    let p = #[trigger] prod_pos@[j] as int;
                    &&& p + 1 < mles.len()
                    &&& mles@[p]@ == prod_specs@[j].layers()[round as int][0]
                    &&& mles@[p + 1]@ == prod_specs@[j].layers()[round as int][1]
                },
            forall|j: int|
                0 <= j < i && round < logup_specs@[j].layers().len() ==> {
                    let p = #[trigger] logup_pos@[j] as int;
                    &&& p + 3 < mles.len()
                    &&& mles@[p]@ == logup_specs@[j].layers()[round as int][0]
                    &&& mles@[p + 1]@ == logup_specs@[j].layers()[round as int][1]
                    &&& mles@[p + 2]@ == logup_specs@[j].layers()[round as int][2]
                    &&& mles@[p + 3]@ == logup_specs@[j].layers()[round as int][3]
                },
        decreases nl - i,
    {
        let w = &logup_specs[i].witness;
        let p = mles.len();
        if round < w.len() {
            assert(tower_shape_ok(logup_specs@[i as int].layers(), 4));
            assert(logup_specs@[i as int].layers()[round as int] == tables(w@[round as int]@));
            assert(w@[round as int].len() == 4);
            assert(logup_specs@[i as int].layers()[round as int][0].len() == cube_size(round as nat));
            assert(logup_specs@[i as int].layers()[round as int][1].len() == cube_size(round as nat));
            assert(logup_specs@[i as int].layers()[round as int][2].len() == cube_size(round as nat));
            assert(logup_specs@[i as int].layers()[round as int][3].len() == cube_size(round as nat));
            let ghost before = mles@;
            mles.push(copy_table(&w[round][0]));
            mles.push(copy_table(&w[round][1]));
            mles.push(copy_table(&w[round][2]));
            mles.push(copy_table(&w[round][3]));
            let alpha_n = alpha_pows[np + 2 * i];
            let alpha_d = alpha_pows[np + 2 * i + 1];
            let q2 = mles.len() - 1;
            let q1 = q2 - 1;
            let p2 = q1 - 1;
            terms.push(SumcheckTerm { coeff: alpha_n, f: p, g: q2 });
            terms.push(SumcheckTerm { coeff: alpha_n, f: p2, g: q1 });
            terms.push(SumcheckTerm { coeff: alpha_d, f: q1, g: q2 });
            proof {
                let w = logup_specs@[i as int].layers()[round as int];
                assert(tables(mles@) =~= tables(before).push(w[0]).push(w[1]).push(w[2]).push(w[3]));
            }
            proof {
                assert forall|j: int|
                    0 <= j < np && round < prod_specs@[j].layers().len() implies {
                        let q = #[trigger] prod_pos@[j] as int;
                        &&& q + 1 < mles.len()
                        &&& mles@[q]@ == prod_specs@[j].layers()[round as int][0]
                        &&& mles@[q + 1]@ == prod_specs@[j].layers()[round as int][1]
                    } by {
                    let q = prod_pos@[j] as int;
                    assert(mles@[q] == before[q]);
                    assert(mles@[q + 1] == before[q + 1]);
                }
                assert forall|j: int|
                    0 <= j < i && round < logup_specs@[j].layers().len() implies {
                        let q = #[trigger] logup_pos@[j] as int;
                        &&& q + 3 < mles.len()
                        &&& mles@[q]@ == logup_specs@[j].layers()[round as int][0]
                        &&& mles@[q + 1]@ == logup_specs@[j].layers()[round as int][1]
                        &&& mles@[q + 2]@ == logup_specs@[j].layers()[round as int][2]
                        &&& mles@[q + 3]@ == logup_specs@[j].layers()[round as int][3]
                    } by {
                    let q = logup_pos@[j] as int;
                    assert(mles@[q] == before[q]);
                    assert(mles@[q + 1] == before[q + 1]);
                    assert(mles@[q + 2] == before[q + 2]);
                    assert(mles@[q + 3] == before[q + 3]);
                }
            }
        }
        logup_pos.push(p);
        i = i + 1;
    }
    (mles, terms, prod_pos, logup_pos)
}

proof fn lemma_record_extend(
    w: Seq<Seq<Seq<Ext>>>,
    evals: Seq<Seq<Ext>>,
    points: Seq<Seq<Ext>>,
    width: nat,
    n: nat,
    e: Seq<Ext>,
    pt: Seq<Ext>,
)
    requires
        record_ok(w, evals, points, width, n),
        pt.len() == n + 2,
        e == Seq::new(width, |b: int| mle_eval(w[n + 1 as int][b], pt.drop_last())),
    ensures
        record_ok(w, evals.push(e), points.push(pt), width, n + 1),
{
    assert forall|k: int| 0 <= k < n + 1 implies #[trigger] round_record_ok(
        w,
        evals.push(e),
        points.push(pt),
        width,
        k,
    ) by {
        if k < n {
            assert(round_record_ok(w, evals, points, width, k));
        }
    }
}

/// Appends round `round`'s values to the record of every product spec that has that
/// layer.
fn record_prod_round(
    proofs: &mut TowerProofs,
    specs: &Vec<TowerProverSpec>,
    pos: &Vec<usize>,
    finals: &Vec<Ext>,
    rt_prime: &Vec<Ext>,
    round: usize,
)
    requires
        round >= 1,
        rt_prime.len() == round + 1,
        pos.len() == specs.len(),
        old(proofs).prod_specs_eval.len() == specs.len(),
        old(proofs).prod_specs_points.len() == specs.len(),
        specs_shape_ok(specs@, 2),
        forall|i: int|
            0 <= i < specs.len() && round < specs@[i].layers().len() ==> {
                let p = #[trigger] pos@[i] as int;
                &&& p + 1 < finals.len()
                &&& finals@[p] == mle_eval(specs@[i].layers()[round as int][0], rt_prime@.drop_last())
                &&& finals@[p + 1] == mle_eval(specs@[i].layers()[round as int][1], rt_prime@.drop_last())
            },
        forall|i: int|
            0 <= i < specs.len() ==> record_ok(
                #[trigger] specs@[i].layers(),
                old(proofs).prod_evals()[i],
                old(proofs).prod_points()[i],
                2,
                rounds_taken(specs@[i].layers().len(), (round - 1) as nat),
            ),
    ensures
        final(proofs).prod_specs_eval.len() == specs.len(),
        final(proofs).prod_specs_points.len() == specs.len(),
        forall|i: int|
            0 <= i < specs.len() ==> #[trigger] final(proofs).prod_points()[i] == if round
                < specs@[i].layers().len() {
                old(proofs).prod_points()[i].push(rt_prime@)
            } else {
                old(proofs).prod_points()[i]
            },
        forall|i: int|
            0 <= i < specs.len() ==> record_ok(
                #[trigger] specs@[i].layers(),
                final(proofs).prod_evals()[i],
                final(proofs).prod_points()[i],
                2,
                rounds_taken(specs@[i].layers().len(), round as nat),
            ),
        final(proofs).rounds() == old(proofs).rounds(),
        final(proofs).logup_specs_eval.len() == old(proofs).logup_specs_eval.len(),
        final(proofs).logup_specs_points.len() == old(proofs).logup_specs_points.len(),
        final(proofs).logup_evals() == old(proofs).logup_evals(),
        final(proofs).logup_points() == old(proofs).logup_points(),
{
    let n = specs.len();
    let mut i: usize = 0;
    while i < n
        invariant
            n == specs.len(),
            i <= n,
            round >= 1,
            rt_prime.len() == round + 1,
            pos.len() == n,
            proofs.prod_specs_eval.len() == n,
            proofs.prod_specs_points.len() == n,
            specs_shape_ok(specs@, 2),
            forall|j: int|
                0 <= j < specs.len() && round < specs@[j].layers().len() ==> {
                    let p = #[trigger] pos@[j] as int;
                    &&& p + 1 < finals.len()
                    &&& finals@[p] == mle_eval(specs@[j].layers()[round as int][0], rt_prime@.drop_last())
                    &&& finals@[p + 1] == mle_eval(specs@[j].layers()[round as int][1], rt_prime@.drop_last())
                },
            forall|j: int|
                0 <= j < i ==> #[trigger] proofs.prod_points()[j] == if round
                    < specs@[j].layers().len() {
                    old(proofs).prod_points()[j].push(rt_prime@)
                } else {
                    old(proofs).prod_points()[j]
                },
            forall|j: int| i <= j < n ==> #[trigger] proofs.prod_points()[j] == old(proofs).prod_points()[j],
            forall|j: int|
                0 <= j < i ==> record_ok(
                    #[trigger] specs@[j].layers(),
                    proofs.prod_evals()[j],
                    proofs.prod_points()[j],
                    2,
                    rounds_taken(specs@[j].layers().len(), round as nat),
                ),
            forall|j: int|
                i <= j < n ==> record_ok(
                    #[trigger] specs@[j].layers(),
                    proofs.prod_evals()[j],
                    proofs.prod_points()[j],
                    2,
                    rounds_taken(specs@[j].layers().len(), (round - 1) as nat),
                ),
            proofs.rounds() == old(proofs).rounds(),
            proofs.logup_specs_eval.len() == old(proofs).logup_specs_eval.len(),
            proofs.logup_specs_points.len() == old(proofs).logup_specs_points.len(),
            proofs.logup_evals() == old(proofs).logup_evals(),
            proofs.logup_points() == old(proofs).logup_points(),
        decreases n - i,
    {
        let ghost w = specs@[i as int].layers();
        if round < specs[i].witness.len() {
            let p = pos[i];
            let e = vec![finals[p], finals[p + 1]];
            let pt = copy_table(rt_prime);
            let ghost before_e = proofs.prod_evals();
            let ghost before_p = proofs.prod_points();
            proof {
                assert(w.len() == specs@[i as int].witness@.len());
                assert(e@ =~= Seq::new(2, |b: int| mle_eval(w[(round - 1) + 1][b], pt@.drop_last())));
                lemma_record_extend(w, before_e[i as int], before_p[i as int], 2, (round - 1) as nat, e@, pt@);
            }
            proofs.push_prod_evals_and_point(i, e, pt);
            proof {
                assert forall|j: int| 0 <= j < n && j != i implies proofs.prod_evals()[j] == before_e[j]
                    && proofs.prod_points()[j] == before_p[j] by {}
            }
        } else {
            assert(w.len() == specs@[i as int].witness@.len());
            assert(rounds_taken(w.len(), round as nat) == rounds_taken(w.len(), (round - 1) as nat));
        }
        i = i + 1;
    }
}

/// Appends round `round`'s values to the record of every logup spec that has that
/// layer.
fn record_logup_round(
    proofs: &mut TowerProofs,
    specs: &Vec<TowerProverSpec>,
    pos: &Vec<usize>,
    finals: &Vec<Ext>,
    rt_prime: &Vec<Ext>,
    round: usize,
)
    requires
        round >= 1,
        rt_prime.len() == round + 1,
        pos.len() == specs.len(),
        old(proofs).logup_specs_eval.len() == specs.len(),
        old(proofs).logup_specs_points.len() == specs.len(),
        specs_shape_ok(specs@, 4),
        forall|i: int|
            0 <= i < specs.len() && round < specs@[i].layers().len() ==> {
                let p = #[trigger] pos@[i] as int;
                &&& p + 3 < finals.len()
                &&& forall|b: int| 0 <= b < 4 ==> #[trigger] finals@[p + b] == mle_eval(specs@[i].layers()[round as int][b], rt_prime@.drop_last())
            },
        forall|i: int|
            0 <= i < specs.len() ==> record_ok(
                #[trigger] specs@[i].layers(),
                old(proofs).logup_evals()[i],
                old(proofs).logup_points()[i],
                4,
                rounds_taken(specs@[i].layers().len(), (round - 1) as nat),
            ),
    ensures
        final(proofs).logup_specs_eval.len() == specs.len(),
        final(proofs).logup_specs_points.len() == specs.len(),
        forall|i: int|
            0 <= i < specs.len() ==> #[trigger] final(proofs).logup_points()[i] == if round
                < specs@[i].layers().len() {
                old(proofs).logup_points()[i].push(rt_prime@)
            } else {
                old(proofs).logup_points()[i]
            },
        forall|i: int|
            0 <= i < specs.len() ==> record_ok(
                #[trigger] specs@[i].layers(),
                final(proofs).logup_evals()[i],
                final(proofs).logup_points()[i],
                4,
                rounds_taken(specs@[i].layers().len(), round as nat),
            ),
        final(proofs).rounds() == old(proofs).rounds(),
        final(proofs).prod_specs_eval.len() == old(proofs).prod_specs_eval.len(),
        final(proofs).prod_specs_points.len() == old(proofs).prod_specs_points.len(),
        final(proofs).prod_evals() == old(proofs).prod_evals(),
        final(proofs).prod_points() == old(proofs).prod_points(),
{
    let n = specs.len();
    let mut i: usize = 0;
    while i < n
        invariant
            n == specs.len(),
            i <= n,
            round >= 1,
            rt_prime.len() == round + 1,
            pos.len() == n,
            proofs.logup_specs_eval.len() == n,
            proofs.logup_specs_points.len() == n,
            specs_shape_ok(specs@, 4),
            forall|j: int|
                0 <= j < specs.len() && round < specs@[j].layers().len() ==> {
                    let p = #[trigger] pos@[j] as int;
                    &&& p + 3 < finals.len()
                    &&& forall|b: int| 0 <= b < 4 ==> #[trigger] finals@[p + b] == mle_eval(specs@[j].layers()[round as int][b], rt_prime@.drop_last())
                },
            forall|j: int|
                0 <= j < i ==> #[trigger] proofs.logup_points()[j] == if round
                    < specs@[j].layers().len() {
                    old(proofs).logup_points()[j].push(rt_prime@)
                } else {
                    old(proofs).logup_points()[j]
                },
            forall|j: int| i <= j < n ==> #[trigger] proofs.logup_points()[j] == old(proofs).logup_points()[j],
            forall|j: int|
                0 <= j < i ==> record_ok(
                    #[trigger] specs@[j].layers(),
                    proofs.logup_evals()[j],
                    proofs.logup_points()[j],
                    4,
                    rounds_taken(specs@[j].layers().len(), round as nat),
                ),
            forall|j: int|
                i <= j < n ==> record_ok(
                    #[trigger] specs@[j].layers(),
                    proofs.logup_evals()[j],
                    proofs.logup_points()[j],
                    4,
                    rounds_taken(specs@[j].layers().len(), (round - 1) as nat),
                ),
            proofs.rounds() == old(proofs).rounds(),
            proofs.prod_specs_eval.len() == old(proofs).prod_specs_eval.len(),
            proofs.prod_specs_points.len() == old(proofs).prod_specs_points.len(),
            proofs.prod_evals() == old(proofs).prod_evals(),
            proofs.prod_points() == old(proofs).prod_points(),
        decreases n - i,
    {
        let ghost w = specs@[i as int].layers();
        if round < specs[i].witness.len() {
            let p = pos[i];
            let e = vec![finals[p], finals[p + 1], finals[p + 2], finals[p + 3]];
            let pt = copy_table(rt_prime);
            let ghost before_e = proofs.logup_evals();
            let ghost before_p = proofs.logup_points();
            proof {
                assert(w.len() == specs@[i as int].witness@.len());
                assert(finals@[p + 0] == finals@[p as int]);
                assert(e@ =~= Seq::new(4, |b: int| mle_eval(w[(round - 1) + 1][b], pt@.drop_last())));
                lemma_record_extend(w, before_e[i as int], before_p[i as int], 4, (round - 1) as nat, e@, pt@);
            }
            proofs.push_logup_evals_and_point(i, e, pt);
            proof {
                assert forall|j: int| 0 <= j < n && j != i implies proofs.logup_evals()[j] == before_e[j]
                    && proofs.logup_points()[j] == before_p[j] by {}
            }
        } else {
            assert(w.len() == specs@[i as int].witness@.len());
            assert(rounds_taken(w.len(), round as nat) == rounds_taken(w.len(), (round - 1) as nat));
        }
        i = i + 1;
    }
}

pub proof fn lemma_max_layers_bound(specs: Seq<TowerProverSpec>, i: int)
    requires
        0 <= i < specs.len(),
    ensures
        specs[i].layers().len() <= max_layers(specs),
    decreases specs.len(),
{
    if i < specs.len() - 1 {
        lemma_max_layers_bound(specs.drop_last(), i);
        assert(specs.drop_last()[i] == specs[i]);
    }
}

fn max_layers_exec(specs: &Vec<TowerProverSpec>) -> (m: usize)
    ensures
        m == max_layers(specs@),
{
    let mut m: usize = 0;
    let mut i: usize = 0;
    proof {
        assert(specs@.subrange(0, 0) =~= Seq::<TowerProverSpec>::empty());
    }
    while i < specs.len()
        invariant
            i <= specs.len(),
            m == max_layers(specs@.subrange(0, i as int)),
        decreases specs.len() - i,
    {
        proof {
            let s = specs@.subrange(0, i + 1);
            assert(s.drop_last() =~= specs@.subrange(0, i as int));
            assert(s.last() == specs@[i as int]);
        }
        let l = specs[i].witness.len();
        if l > m {
            m = l;
        }
        i = i + 1;
    }
    proof {
        assert(specs@.subrange(0, specs.len() as int) =~= specs@);
    }
    m
}

/// Number of layers of the tallest tower: the proof has one round fewer, and the final
/// point that many coordinates.
pub open spec fn tower_height(prod_specs: Seq<TowerProverSpec>, logup_specs: Seq<TowerProverSpec>) -> nat {
    let a = max_layers(prod_specs);
    let b = max_layers(logup_specs);
    if a > b {
        a
    } else {
        b
    }
}

/// What `create_proof` returns from transcript state `s0`: the point after the last
/// round, the messages of every round, and per spec the point of every round it takes
/// part in, with the values of its next layer there.
pub open spec fn prove_outcome(
    prod: Seq<TowerProverSpec>,
    logup: Seq<TowerProverSpec>,
    s0: Ext,
    point: Seq<Ext>,
    proofs: TowerProofs,
) -> bool {
    let h = tower_height(prod, logup);
    &&& point == prover_after(prod, logup, s0, (h - 1) as nat).point
    &&& proofs.rounds().len() == h - 1
    &&& forall|r: int|
        0 <= r < h - 1 ==> #[trigger] proofs.rounds()[r] == round_messages(
            prod,
            logup,
            prover_after(prod, logup, s0, r as nat),
            r + 1,
        )
    &&& proofs.prod_evals().len() == prod.len()
    &&& proofs.prod_points().len() == prod.len()
    &&& proofs.logup_evals().len() == logup.len()
    &&& proofs.logup_points().len() == logup.len()
    &&& forall|i: int|
        0 <= i < prod.len() ==> record_ok(
            #[trigger] prod[i].layers(),
            proofs.prod_evals()[i],
            proofs.prod_points()[i],
            2,
            (prod[i].layers().len() - 1) as nat,
        )
    &&& forall|i: int|
        0 <= i < logup.len() ==> record_ok(
            #[trigger] logup[i].layers(),
            proofs.logup_evals()[i],
            proofs.logup_points()[i],
            4,
            (logup[i].layers().len() - 1) as nat,
        )
    &&& forall|i: int, k: int|
        0 <= i < prod.len() && 0 <= k < prod[i].layers().len() - 1 ==> #[trigger] proofs.prod_points()[i][k]
            == prover_after(prod, logup, s0, (k + 1) as nat).point
    &&& forall|i: int, k: int|
        0 <= i < logup.len() && 0 <= k < logup[i].layers().len() - 1
            ==> #[trigger] proofs.logup_points()[i][k] == prover_after(prod, logup, s0, (k + 1) as nat).point
}

/// Proving is deterministic: two proofs of the same specs from the same transcript
/// state are the same point and the same proof, message for message and value for value.
pub proof fn create_proof_is_deterministic(
    prod: Seq<TowerProverSpec>,
    logup: Seq<TowerProverSpec>,
    s0: Ext,
    point1: Seq<Ext>,
    proofs1: TowerProofs,
    point2: Seq<Ext>,
    proofs2: TowerProofs,
)
    requires
        specs_shape_ok(prod, 2),
        specs_shape_ok(logup, 4),
        prove_outcome(prod, logup, s0, point1, proofs1),
        prove_outcome(prod, logup, s0, point2, proofs2),
    ensures
        point1 == point2,
        proofs1.rounds() == proofs2.rounds(),
        proofs1.prod_evals() == proofs2.prod_evals(),
        proofs1.prod_points() == proofs2.prod_points(),
        proofs1.logup_evals() == proofs2.logup_evals(),
        proofs1.logup_points() == proofs2.logup_points(),
{
    let h = tower_height(prod, logup);
    assert forall|r: int| 0 <= r < h - 1 implies #[trigger] proofs1.rounds()[r] == proofs2.rounds()[r] by {}
    assert(proofs1.rounds() =~= proofs2.rounds());
    assert forall|i: int| 0 <= i < prod.len() implies #[trigger] proofs1.prod_points()[i] == proofs2.prod_points()[i]
        && proofs1.prod_evals()[i] == proofs2.prod_evals()[i] by {
        let w = prod[i].layers();
        assert(tower_shape_ok(w, 2));
        let n = (w.len() - 1) as nat;
        assert(record_ok(w, proofs1.prod_evals()[i], proofs1.prod_points()[i], 2, n));
        assert(record_ok(w, proofs2.prod_evals()[i], proofs2.prod_points()[i], 2, n));
        assert forall|k: int| 0 <= k < w.len() - 1 implies #[trigger] proofs1.prod_points()[i][k] == proofs2.prod_points()[i][k] by {
            assert(proofs1.prod_points()[i][k] == prover_after(prod, logup, s0, (k + 1) as nat).point);
            assert(proofs2.prod_points()[i][k] == prover_after(prod, logup, s0, (k + 1) as nat).point);
        }
        assert(proofs1.prod_points()[i] =~= proofs2.prod_points()[i]);
        assert forall|k: int| 0 <= k < n implies #[trigger] proofs1.prod_evals()[i][k] == proofs2.prod_evals()[i][k] by {
            assert(round_record_ok(w, proofs1.prod_evals()[i], proofs1.prod_points()[i], 2, k));
            assert(round_record_ok(w, proofs2.prod_evals()[i], proofs2.prod_points()[i], 2, k));
        }
        assert(proofs1.prod_evals()[i] =~= proofs2.prod_evals()[i]);
    }
    assert forall|i: int| 0 <= i < prod.len() implies #[trigger] proofs1.prod_evals()[i] == proofs2.prod_evals()[i] by {
        assert(proofs1.prod_points()[i] == proofs2.prod_points()[i]);
    }
    assert(proofs1.prod_points() =~= proofs2.prod_points());
    assert(proofs1.prod_evals() =~= proofs2.prod_evals());
    assert forall|i: int| 0 <= i < logup.len() implies #[trigger] proofs1.logup_points()[i] == proofs2.logup_points()[i]
        && proofs1.logup_evals()[i] == proofs2.logup_evals()[i] by {
        let w = logup[i].layers();
        assert(tower_shape_ok(w, 4));
        let n = (w.len() - 1) as nat;
        assert(record_ok(w, proofs1.logup_evals()[i], proofs1.logup_points()[i], 4, n));
        assert(record_ok(w, proofs2.logup_evals()[i], proofs2.logup_points()[i], 4, n));
        assert forall|k: int| 0 <= k < w.len() - 1 implies #[trigger] proofs1.logup_points()[i][k] == proofs2.logup_points()[i][k] by {
            assert(proofs1.logup_points()[i][k] == prover_after(prod, logup, s0, (k + 1) as nat).point);
            assert(proofs2.logup_points()[i][k] == prover_after(prod, logup, s0, (k + 1) as nat).point);
        }
        assert(proofs1.logup_points()[i] =~= proofs2.logup_points()[i]);
        assert forall|k: int| 0 <= k < n implies #[trigger] proofs1.logup_evals()[i][k] == proofs2.logup_evals()[i][k] by {
            assert(round_record_ok(w, proofs1.logup_evals()[i], proofs1.logup_points()[i], 4, k));
            assert(round_record_ok(w, proofs2.logup_evals()[i], proofs2.logup_points()[i], 4, k));
        }
        assert(proofs1.logup_evals()[i] =~= proofs2.logup_evals()[i]);
    }
    assert forall|i: int| 0 <= i < logup.len() implies #[trigger] proofs1.logup_evals()[i] == proofs2.logup_evals()[i] by {
        assert(proofs1.logup_points()[i] == proofs2.logup_points()[i]);
    }
    assert(proofs1.logup_points() =~= proofs2.logup_points());
    assert(proofs1.logup_evals() =~= proofs2.logup_evals());
}

impl TowerProver {
    /// Proves every tower at once, one batched sum-check per layer, root first. Returns
    /// the final opening point and the proof, whose record for each spec holds, per round,
    /// the true values of that spec's next layer at the recorded point. The rounds run in
    /// order on the calling thread; `max_threads` is the parallelism a caller allows.
    pub fn create_proof(
        max_threads: usize,
        prod_specs: Vec<TowerProverSpec>,
        logup_specs: Vec<TowerProverSpec>,
        num_fanin: usize,
        transcript: &mut Transcript,
    ) -> (out: (Vec<Ext>, TowerProofs))
        requires
            num_fanin == 2,
            prod_specs.len() >= 1,
            specs_shape_ok(prod_specs@, 2),
            specs_shape_ok(logup_specs@, 4),
            prod_specs.len() + 2 * logup_specs.len() <= usize::MAX,
        ensures
            out.0.len() == tower_height(prod_specs@, logup_specs@),
            out.1.rounds().len() == tower_height(prod_specs@, logup_specs@) - 1,
            out.1.prod_specs_eval.len() == prod_specs.len(),
            out.1.prod_specs_points.len() == prod_specs.len(),
            out.1.logup_specs_eval.len() == logup_specs.len(),
            out.1.logup_specs_points.len() == logup_specs.len(),
            forall|i: int|
                0 <= i < prod_specs.len() ==> record_ok(
                    #[trigger] prod_specs@[i].layers(),
                    out.1.prod_evals()[i],
                    out.1.prod_points()[i],
                    2,
                    (prod_specs@[i].layers().len() - 1) as nat,
                ),
            forall|i: int|
                0 <= i < logup_specs.len() ==> record_ok(
                    #[trigger] logup_specs@[i].layers(),
                    out.1.logup_evals()[i],
                    out.1.logup_points()[i],
                    4,
                    (logup_specs@[i].layers().len() - 1) as nat,
                ),
            prove_outcome(prod_specs@, logup_specs@, old(transcript).state, out.0@, out.1),
            final(transcript).state == prover_after(
                prod_specs@,
                logup_specs@,
                old(transcript).state,
                (tower_height(prod_specs@, logup_specs@) - 1) as nat,
            ).state,
    {
        let np = prod_specs.len();
        let nl = logup_specs.len();
        let n_alpha = np + 2 * nl;
        let mut proofs = TowerProofs::new(np, nl);
        let mp = max_layers_exec(&prod_specs);
        let ml = max_layers_exec(&logup_specs);
        let height = if mp > ml {
            mp
        } else {
            ml
        };
        proof {
            lemma_max_layers_bound(prod_specs@, 0);
            assert(tower_shape_ok(prod_specs@[0].layers(), 2));
        }
        let ghost s0 = transcript.state;
        let mut alpha = transcript.get_challenge_pows(n_alpha);
        let mut out_rt: Vec<Ext> = Vec::new();
        out_rt.push(transcript.get_challenge());
        let mut round: usize = 1;
        proof {
            assert forall|i: int| 0 <= i < np implies record_ok(
                #[trigger] prod_specs@[i].layers(),
                proofs.prod_evals()[i],
                proofs.prod_points()[i],
                2,
                rounds_taken(prod_specs@[i].layers().len(), 0),
            ) by {
                assert(tower_shape_ok(prod_specs@[i].layers(), 2));
            }
            assert forall|i: int| 0 <= i < nl implies record_ok(
                #[trigger] logup_specs@[i].layers(),
                proofs.logup_evals()[i],
                proofs.logup_points()[i],
                4,
                rounds_taken(logup_specs@[i].layers().len(), 0),
            ) by {
                assert(tower_shape_ok(logup_specs@[i].layers(), 4));
            }
        }
        while round < height
            invariant
                s0 == old(transcript).state,
                out_rt@ == prover_after(prod_specs@, logup_specs@, s0, (round - 1) as nat).point,
                alpha@ == prover_after(prod_specs@, logup_specs@, s0, (round - 1) as nat).alpha,
                transcript.state == prover_after(prod_specs@, logup_specs@, s0, (round - 1) as nat).state,
                forall|r: int|
                    0 <= r < round - 1 ==> #[trigger] proofs.rounds()[r] == round_messages(
                        prod_specs@,
                        logup_specs@,
                        prover_after(prod_specs@, logup_specs@, s0, r as nat),
                        r + 1,
                    ),
                forall|i: int, k: int|
                    0 <= i < np && 0 <= k < rounds_taken(prod_specs@[i].layers().len(), (round - 1) as nat)
                        ==> #[trigger] proofs.prod_points()[i][k] == prover_after(prod_specs@, logup_specs@, s0, (k + 1) as nat).point,
                forall|i: int, k: int|
                    0 <= i < nl && 0 <= k < rounds_taken(logup_specs@[i].layers().len(), (round - 1) as nat)
                        ==> #[trigger] proofs.logup_points()[i][k] == prover_after(prod_specs@, logup_specs@, s0, (k + 1) as nat).point,
                np == prod_specs.len(),
                nl == logup_specs.len(),
                n_alpha == np + 2 * nl,
                height == tower_height(prod_specs@, logup_specs@),
                specs_shape_ok(prod_specs@, 2),
                specs_shape_ok(logup_specs@, 4),
                1 <= round <= height,
                out_rt.len() == round,
                alpha.len() == n_alpha,
                proofs.rounds().len() == round - 1,
                proofs.prod_specs_eval.len() == np,
                proofs.prod_specs_points.len() == np,
                proofs.logup_specs_eval.len() == nl,
                proofs.logup_specs_points.len() == nl,
                forall|i: int|
                    0 <= i < np ==> record_ok(
                        #[trigger] prod_specs@[i].layers(),
                        proofs.prod_evals()[i],
                        proofs.prod_points()[i],
                        2,
                        rounds_taken(prod_specs@[i].layers().len(), (round - 1) as nat),
                    ),
                forall|i: int|
                    0 <= i < nl ==> record_ok(
                        #[trigger] logup_specs@[i].layers(),
                        proofs.logup_evals()[i],
                        proofs.logup_points()[i],
                        4,
                        rounds_taken(logup_specs@[i].layers().len(), (round - 1) as nat),
                    ),
            decreases height - round,
        {
            let ghost v = prover_after(prod_specs@, logup_specs@, s0, (round - 1) as nat);
            let ghost old_rounds = proofs.rounds();
            let ghost old_pp = proofs.prod_points();
            let ghost old_lp = proofs.logup_points();
            let eq = build_eq(&out_rt);
            let (mles, terms, ppos, lpos) = build_round_batch(&prod_specs, &logup_specs, &alpha, round);
            let ghost m0 = tables(mles@);
            proof {
                assert forall|k: int| 0 <= k < m0.len() implies (#[trigger] m0[k]).len() == eq@.len() by {
                    assert(m0[k] == mles@[k]@);
                }
            }
            let (msgs, point, _eq_final, finals) = prove_batched(eq, mles, &terms, round, transcript);
            proofs.push_sumcheck_proofs(msgs);
            let r_merge = transcript.get_challenge();
            let mut rt_prime = copy_table(&point);
            rt_prime.push(r_merge);
            let next_alpha = transcript.get_challenge_pows(n_alpha);
            proof {
                assert(rt_prime@.drop_last() =~= point@);
                assert forall|i: int|
                    0 <= i < np && round < prod_specs@[i].layers().len() implies {
                        let p = #[trigger] ppos@[i] as int;
                        &&& p + 1 < finals.len()
                        &&& finals@[p] == mle_eval(prod_specs@[i].layers()[round as int][0], rt_prime@.drop_last())
                        &&& finals@[p + 1] == mle_eval(prod_specs@[i].layers()[round as int][1], rt_prime@.drop_last())
                    } by {
                    let p = ppos@[i] as int;
                    assert(m0[p] == prod_specs@[i].layers()[round as int][0]);
                    assert(m0[p + 1] == prod_specs@[i].layers()[round as int][1]);
                }
                assert forall|i: int|
                    0 <= i < nl && round < logup_specs@[i].layers().len() implies {
                        let p = #[trigger] lpos@[i] as int;
                        &&& p + 3 < finals.len()
                        &&& forall|b: int| 0 <= b < 4 ==> #[trigger] finals@[p + b] == mle_eval(logup_specs@[i].layers()[round as int][b], rt_prime@.drop_last())
                    } by {
                    let p = lpos@[i] as int;
                    assert forall|b: int| 0 <= b < 4 implies #[trigger] finals@[p + b] == mle_eval(logup_specs@[i].layers()[round as int][b], rt_prime@.drop_last()) by {
                        assert(m0[p + b] == logup_specs@[i].layers()[round as int][b]);
                    }
                }
            }
            let ghost after_sc = proofs.rounds();
            record_prod_round(&mut proofs, &prod_specs, &ppos, &finals, &rt_prime, round);
            record_logup_round(&mut proofs, &logup_specs, &lpos, &finals, &rt_prime, round);
            proof {
                let v2 = prover_after(prod_specs@, logup_specs@, s0, round as nat);
                assert(v2 == prover_next(prod_specs@, logup_specs@, v, round as int));
                assert(after_sc[round - 1] == round_messages(prod_specs@, logup_specs@, v, round as int));
                assert(rt_prime@ =~= v2.point);
                assert forall|r: int|
                    0 <= r < round implies #[trigger] proofs.rounds()[r] == round_messages(
                        prod_specs@,
                        logup_specs@,
                        prover_after(prod_specs@, logup_specs@, s0, r as nat),
                        r + 1,
                    ) by {
                    if r < round - 1 {
                        assert(proofs.rounds()[r] == old_rounds[r]);
                    }
                }
                assert forall|i: int, k: int|
                    0 <= i < np && 0 <= k < rounds_taken(prod_specs@[i].layers().len(), round as nat)
                        implies #[trigger] proofs.prod_points()[i][k] == prover_after(prod_specs@, logup_specs@, s0, (k + 1) as nat).point by {
                    assert(tower_shape_ok(prod_specs@[i].layers(), 2));
                    if k < rounds_taken(prod_specs@[i].layers().len(), (round - 1) as nat) {
                    }
                }
                assert forall|i: int, k: int|
                    0 <= i < nl && 0 <= k < rounds_taken(logup_specs@[i].layers().len(), round as nat)
                        implies #[trigger] proofs.logup_points()[i][k] == prover_after(prod_specs@, logup_specs@, s0, (k + 1) as nat).point by {
                    assert(tower_shape_ok(logup_specs@[i].layers(), 4));
                    if k < rounds_taken(logup_specs@[i].layers().len(), (round - 1) as nat) {
                    }
                }
            }
            out_rt = rt_prime;
            alpha = next_alpha;
            round = round + 1;
        }
        proof {
            assert forall|i: int| 0 <= i < np implies record_ok(
                #[trigger] prod_specs@[i].layers(),
                proofs.prod_evals()[i],
                proofs.prod_points()[i],
                2,
                (prod_specs@[i].layers().len() - 1) as nat,
            ) by {
                lemma_max_layers_bound(prod_specs@, i);
                assert(tower_shape_ok(prod_specs@[i].layers(), 2));
            }
            assert forall|i: int| 0 <= i < nl implies record_ok(
                #[trigger] logup_specs@[i].layers(),
                proofs.logup_evals()[i],
                proofs.logup_points()[i],
                4,
                (logup_specs@[i].layers().len() - 1) as nat,
            ) by {
                lemma_max_layers_bound(logup_specs@, i);
                assert(tower_shape_ok(logup_specs@[i].layers(), 4));
            }
        }
        (out_rt, proofs)
    }
}

} // verus!
