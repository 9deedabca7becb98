use crate::field::{ext_add, ext_mul, ext_of, ext_one, ext_sub, ext_zero, Ext};
use crate::mle::{tables, cube_size, fold_all, fold_low, fold_table, lemma_fold_all_len, lerp, mle_eval};
use crate::transcript::{absorb_all, squeeze, Transcript};
use vstd::prelude::*;

verus! {

/// Number of evaluations in one round message: the round polynomial has degree 3
/// (`eq * f * g`) and is sent as its values at 0, 1, 2 and 3.
pub const ROUND_MSG_LEN: usize = 4;

/// One summand `coeff * eq(x) * f(x) * g(x)` of a batched claim; `f` and `g` index the
/// batch's tables.
#[derive(Clone, Copy, Debug, PartialEq, Eq, Structural)]
pub struct SumcheckTerm {
    pub coeff: Ext,
    pub f: usize,
    pub g: usize,
}

/// What a successful verification reduces the claim to: the value that
/// `sum_t coeff_t * eq * f_t * g_t` must take at `point`.
pub struct SubClaim {
    pub point: Vec<Ext>,
    pub expected_evaluation: Ext,
}

#[derive(Clone, Copy, Debug, PartialEq, Eq, Structural)]
pub enum SumcheckError {
    /// The proof has the wrong number of rounds, or a round message of the wrong size.
    ShapeMismatch,
    /// Some round polynomial does not sum to the running claim over `{0, 1}`.
    RoundSumMismatch,
}

pub open spec fn line_at(t: Seq<Ext>, b: int, x: Ext) -> Ext {
    lerp(t[2 * b], t[2 * b + 1], x)
}

/// `sum_{b < n} eq(x, b) f(x, b) g(x, b)` with the lowest variable set to `x`.
pub open spec fn product_sum(eq: Seq<Ext>, f: Seq<Ext>, g: Seq<Ext>, x: Ext, n: nat) -> Ext
    decreases n,
{
    if n == 0 {
        ext_zero()
    } else {
        let b = n - 1;
        ext_add(
            product_sum(eq, f, g, x, (n - 1) as nat),
            ext_mul(ext_mul(line_at(eq, b, x), line_at(f, b, x)), line_at(g, b, x)),
        )
    }
}

/// The first `k` terms of the batch, summed with the lowest variable set to `x`.
pub open spec fn round_value(
    eq: Seq<Ext>,
    mles: Seq<Seq<Ext>>,
    terms: Seq<SumcheckTerm>,
    x: Ext,
    k: nat,
) -> Ext
    decreases k,
{
    if k == 0 {
        ext_zero()
    } else {
        let t = terms[k - 1];
        ext_add(
            round_value(eq, mles, terms, x, (k - 1) as nat),
            ext_mul(t.coeff, product_sum(eq, mles[t.f as int], mles[t.g as int], x, eq.len() / 2)),
        )
    }
}

/// The round polynomial at 0, 1, 2 and 3.
pub open spec fn round_message(eq: Seq<Ext>, mles: Seq<Seq<Ext>>, terms: Seq<SumcheckTerm>) -> Seq<
    Ext,
> {
    Seq::new(4, |x: int| round_value(eq, mles, terms, ext_of(x as u64), terms.len()))
}

/// Transcript state after the first `msgs.len()` rounds: each round absorbs its message
/// and draws that round's challenge, which becomes the state.
pub open spec fn sc_state(s0: Ext, msgs: Seq<Seq<Ext>>) -> Ext
    decreases msgs.len(),
{
    if msgs.len() == 0 {
        s0
    } else {
        squeeze(absorb_all(sc_state(s0, msgs.drop_last()), msgs.last()))
    }
}

/// The challenges drawn over the rounds of `msgs`, in order.
pub open spec fn sc_point(s0: Ext, msgs: Seq<Seq<Ext>>) -> Seq<Ext> {
    Seq::new(msgs.len(), |j: int| sc_state(s0, msgs.subrange(0, j + 1)))
}

/// The messages of the first `n` rounds of an honest proof: round `k` sends the round
/// polynomial of the tables with their lowest `k` variables fixed to the challenges
/// drawn so far.
pub open spec fn sc_messages(
    eq: Seq<Ext>,
    mles: Seq<Seq<Ext>>,
    terms: Seq<SumcheckTerm>,
    s0: Ext,
    n: nat,
) -> Seq<Seq<Ext>>
    decreases n,
{
    if n == 0 {
        Seq::empty()
    } else {
        let prev = sc_messages(eq, mles, terms, s0, (n - 1) as nat);
        let pt = sc_point(s0, prev);
        prev.push(round_message(fold_all(eq, pt), folded(mles, pt), terms))
    }
}

pub open spec fn folded(mles: Seq<Seq<Ext>>, p: Seq<Ext>) -> Seq<Seq<Ext>> {
    Seq::new(mles.len(), |k: int| fold_all(mles[k], p))
}

/// `1/2` in the Goldilocks field: `2 * INV2 = P + 1`.
pub const INV2: u64 = 9223372034707292161;

/// `1/6` in the Goldilocks field: `6 * INV6 = 5 P + 1`.
pub const INV6: u64 = 15372286724512153601;

pub open spec fn inv2() -> Ext {
    Ext { c0: INV2, c1: 0 }
}

pub open spec fn inv6() -> Ext {
    Ext { c0: INV6, c1: 0 }
}

/// Value at `r` of the cubic through `(0, m[0]), (1, m[1]), (2, m[2]), (3, m[3])`
/// (Lagrange form).
pub open spec fn interp(m: Seq<Ext>, r: Ext) -> Ext {
    let d0 = r;
    let d1 = ext_sub(r, ext_one());
    let d2 = ext_sub(r, ext_of(2));
    let d3 = ext_sub(r, ext_of(3));
    let pos = ext_add(
        ext_mul(m[3], ext_mul(ext_mul(ext_mul(d0, d1), d2), inv6())),
        ext_mul(m[1], ext_mul(ext_mul(ext_mul(d0, d2), d3), inv2())),
    );
    let neg = ext_add(
        ext_mul(m[0], ext_mul(ext_mul(ext_mul(d1, d2), d3), inv6())),
        ext_mul(m[2], ext_mul(ext_mul(ext_mul(d0, d1), d3), inv2())),
    );
    ext_sub(pos, neg)
}

/// Running claim before round `j`: the initial claim, then each round polynomial
/// taken at that round's challenge.
pub open spec fn sc_claim(claim: Ext, msgs: Seq<Seq<Ext>>, s0: Ext, j: nat) -> Ext {
    if j == 0 {
        claim
    } else {
        interp(msgs[j - 1], sc_state(s0, msgs.subrange(0, j as int)))
    }
}

pub open spec fn sc_shape_ok(msgs: Seq<Seq<Ext>>, num_vars: nat) -> bool {
    &&& msgs.len() == num_vars
    &&& forall|j: int| 0 <= j < msgs.len() ==> #[trigger] msgs[j].len() == 4
}

pub open spec fn sc_round_ok(claim: Ext, msgs: Seq<Seq<Ext>>, s0: Ext, j: int) -> bool {
    ext_add(msgs[j][0], msgs[j][1]) == sc_claim(claim, msgs, s0, j as nat)
}

pub open spec fn sc_accepts(claim: Ext, msgs: Seq<Seq<Ext>>, s0: Ext) -> bool {
    forall|j: int| 0 <= j < msgs.len() ==> #[trigger] sc_round_ok(claim, msgs, s0, j)
}

/// Round `i` of an honest proof: the round polynomial of the tables with their lowest
/// `i` variables fixed to the first `i` challenges.
#[verifier::opaque]
pub open spec fn honest_round(
    eq: Seq<Ext>,
    mles: Seq<Seq<Ext>>,
    terms: Seq<SumcheckTerm>,
    point: Seq<Ext>,
    m: Seq<Ext>,
    i: int,
) -> bool {
    m == round_message(fold_all(eq, point.subrange(0, i)), folded(mles, point.subrange(0, i)), terms)
}

proof fn lemma_honest_round_extend(
    eq: Seq<Ext>,
    mles: Seq<Seq<Ext>>,
    terms: Seq<SumcheckTerm>,
    point: Seq<Ext>,
    r: Ext,
    m: Seq<Ext>,
    i: int,
)
    requires
        0 <= i <= point.len(),
        honest_round(eq, mles, terms, point, m, i),
    ensures
        honest_round(eq, mles, terms, point.push(r), m, i),
{
    reveal(honest_round);
    assert(point.push(r).subrange(0, i) =~= point.subrange(0, i));
}

proof fn lemma_honest_round_new(
    eq: Seq<Ext>,
    mles: Seq<Seq<Ext>>,
    terms: Seq<SumcheckTerm>,
    point: Seq<Ext>,
    r: Ext,
    m: Seq<Ext>,
)
    requires
        m == round_message(fold_all(eq, point), folded(mles, point), terms),
    ensures
        honest_round(eq, mles, terms, point.push(r), m, point.len() as int),
{
    reveal(honest_round);
    assert(point.push(r).subrange(0, point.len() as int) =~= point);
}

fn line_exec(t: &Vec<Ext>, b: usize, x: Ext) -> (r: Ext)
    requires
        2 * b + 1 < t.len(),
    ensures
        r == line_at(t@, b as int, x),
{
    let a = t[2 * b];
    a.add(x.mul(t[2 * b + 1].sub(a)))
}

fn product_sum_exec(eq: &Vec<Ext>, f: &Vec<Ext>, g: &Vec<Ext>, x: Ext) -> (r: Ext)
    requires
        f.len() == eq.len(),
        g.len() == eq.len(),
    ensures
        r == product_sum(eq@, f@, g@, x, (eq.len() / 2) as nat),
{
    let half = eq.len() / 2;
    let mut acc = Ext::zero();
    let mut b: usize = 0;
    while b < half
        invariant
            half == eq.len() / 2,
            f.len() == eq.len(),
            g.len() == eq.len(),
            b <= half,
            acc == product_sum(eq@, f@, g@, x, b as nat),
        decreases half - b,
    {
        let v = line_exec(eq, b, x).mul(line_exec(f, b, x)).mul(line_exec(g, b, x));
        acc = acc.add(v);
        b = b + 1;
    }
    acc
}

pub open spec fn batch_ok(eq: Seq<Ext>, mles: Seq<Seq<Ext>>, terms: Seq<SumcheckTerm>) -> bool {
    &&& forall|k: int| 0 <= k < mles.len() ==> (#[trigger] mles[k]).len() == eq.len()
    &&& forall|i: int|
        0 <= i < terms.len() ==> (#[trigger] terms[i]).f < mles.len() && terms[i].g < mles.len()
}

fn round_message_exec(eq: &Vec<Ext>, mles: &Vec<Vec<Ext>>, terms: &Vec<SumcheckTerm>) -> (m: Vec<
    Ext,
>)
    requires
        batch_ok(eq@, tables(mles@), terms@),
    ensures
        m@ == round_message(eq@, tables(mles@), terms@),
{
    let mut m: Vec<Ext> = Vec::new();
    let mut x: u64 = 0;
    while x < 4
        invariant
            x <= 4,
            batch_ok(eq@, tables(mles@), terms@),
            m@.len() == x,
            forall|i: int|
                0 <= i < x ==> m@[i] == round_value(
                    eq@,
                    tables(mles@),
                    terms@,
                    ext_of(i as u64),
                    terms@.len(),
                ),
        decreases 4 - x,
    {
        let xe = Ext::from_u64(x);
        let mut acc = Ext::zero();
        let mut k: usize = 0;
        while k < terms.len()
            invariant
                k <= terms.len(),
                batch_ok(eq@, tables(mles@), terms@),
                xe == ext_of(x),
                acc == round_value(eq@, tables(mles@), terms@, xe, k as nat),
            decreases terms.len() - k,
        {
            let t = terms[k];
            assert(t.f < mles.len() && t.g < mles.len());
            assert(tables(mles@)[t.f as int] == mles@[t.f as int]@);
            assert(tables(mles@)[t.g as int] == mles@[t.g as int]@);
            let s = product_sum_exec(eq, &mles[t.f], &mles[t.g], xe);
            acc = acc.add(t.coeff.mul(s));
            k = k + 1;
        }
        m.push(acc);
        x = x + 1;
    }
    assert(m@ =~= round_message(eq@, tables(mles@), terms@));
    m
}

/// Fixes the lowest variable of every table to `r`.
fn fold_tables(cur: &Vec<Vec<Ext>>, r: Ext) -> (out: Vec<Vec<Ext>>)
    ensures
        out.len() == cur.len(),
        forall|k: int| 0 <= k < cur.len() ==> (#[trigger] out@[k])@ == fold_low(cur@[k]@, r),
{
    let mut out: Vec<Vec<Ext>> = Vec::new();
    let mut k: usize = 0;
    while k < cur.len()
        invariant
            k <= cur.len(),
            out.len() == k,
            forall|i: int| 0 <= i < k ==> (#[trigger] out@[i])@ == fold_low(cur@[i]@, r),
        decreases cur.len() - k,
    {
        out.push(fold_table(&cur[k], r));
        k = k + 1;
    }
    out
}

proof fn lemma_sc_point_push(s0: Ext, msgs: Seq<Seq<Ext>>, m: Seq<Ext>)
    ensures
        sc_state(s0, msgs.push(m)) == squeeze(absorb_all(sc_state(s0, msgs), m)),
        sc_point(s0, msgs.push(m)) == sc_point(s0, msgs).push(sc_state(s0, msgs.push(m))),
{
    let next = msgs.push(m);
    assert(next.drop_last() =~= msgs);
    assert forall|j: int| 0 <= j < msgs.len() implies #[trigger] sc_point(s0, next)[j] == sc_point(
        s0,
        msgs,
    )[j] by {
        assert(next.subrange(0, j + 1) =~= msgs.subrange(0, j + 1));
    }
    assert(next.subrange(0, msgs.len() + 1 as int) =~= next);
    assert(sc_point(s0, next) =~= sc_point(s0, msgs).push(sc_state(s0, next)));
}

proof fn lemma_folded_step(
    eq0: Seq<Ext>,
    mles0: Seq<Seq<Ext>>,
    terms: Seq<SumcheckTerm>,
    old_point: Seq<Ext>,
    r: Ext,
    cur_eq: Seq<Ext>,
    cur: Seq<Seq<Ext>>,
    next_eq: Seq<Ext>,
    next: Seq<Seq<Ext>>,
)
    requires
        cur_eq == fold_all(eq0, old_point),
        cur == folded(mles0, old_point),
        batch_ok(cur_eq, cur, terms),
        next_eq == fold_low(cur_eq, r),
        next.len() == cur.len(),
        forall|k: int| 0 <= k < cur.len() ==> #[trigger] next[k] == fold_low(cur[k], r),
    ensures
        next_eq == fold_all(eq0, old_point.push(r)),
        next == folded(mles0, old_point.push(r)),
        batch_ok(next_eq, next, terms),
{
    let p = old_point.push(r);
    assert(p.drop_last() =~= old_point);
    assert(next =~= folded(mles0, p));
    assert forall|k: int| 0 <= k < next.len() implies (#[trigger] next[k]).len() == next_eq.len() by {
        assert(cur[k].len() == cur_eq.len());
    }
}

/// Proves `sum_x sum_t coeff_t * eq(x) * f_t(x) * g_t(x)` over the hypercube with
/// `num_vars` coordinates, lowest variable first. Returns the round messages, the
/// challenge point, and the values of `eq` and of every table at that point.
#[verifier::rlimit(40)]
pub fn prove_batched(
    eq: Vec<Ext>,
    mles: Vec<Vec<Ext>>,
    terms: &Vec<SumcheckTerm>,
    num_vars: usize,
    transcript: &mut Transcript,
) -> (out: (Vec<Vec<Ext>>, Vec<Ext>, Ext, Vec<Ext>))
    requires
        eq.len() == cube_size(num_vars as nat),
        batch_ok(eq@, tables(mles@), terms@),
    ensures
        out.0.len() == num_vars,
        tables(out.0@) == sc_messages(eq@, tables(mles@), terms@, old(transcript).state, num_vars as nat),
        out.1@ == sc_point(old(transcript).state, tables(out.0@)),
        final(transcript).state == sc_state(old(transcript).state, tables(out.0@)),
        forall|j: int|
            0 <= j < num_vars ==> honest_round(eq@, tables(mles@), terms@, out.1@, #[trigger] out.0@[j]@, j),
        out.2 == mle_eval(eq@, out.1@),
        out.3.len() == mles.len(),
        forall|k: int| 0 <= k < mles.len() ==> #[trigger] out.3@[k] == mle_eval(mles@[k]@, out.1@),
{
    let ghost s0 = transcript.state;
    let mut msgs: Vec<Vec<Ext>> = Vec::new();
    let mut point: Vec<Ext> = Vec::new();
    let mut cur_eq = eq;
    let mut cur = mles;
    let ghost eq0 = cur_eq@;
    let ghost mles0 = tables(cur@);
    proof {
        assert(tables(msgs@) =~= Seq::<Seq<Ext>>::empty());
        assert(sc_point(s0, tables(msgs@)) =~= point@);
        assert(folded(mles0, point@) =~= mles0);
    }
    let mut j: usize = 0;
    while j < num_vars
        invariant
            j <= num_vars,
            msgs.len() == j,
            point.len() == j,
            cur_eq@ == fold_all(eq0, point@),
            cur_eq.len() == cube_size((num_vars - j) as nat),
            tables(cur@) == folded(mles0, point@),
            mles0.len() == cur.len(),
            batch_ok(cur_eq@, tables(cur@), terms@),
            point@ == sc_point(s0, tables(msgs@)),
            transcript.state == sc_state(s0, tables(msgs@)),
            tables(msgs@) == sc_messages(eq0, mles0, terms@, s0, j as nat),
            forall|i: int| 0 <= i < j ==> honest_round(eq0, mles0, terms@, point@, #[trigger] msgs@[i]@, i),
        decreases num_vars - j,
    {
        let m = round_message_exec(&cur_eq, &cur, terms);
        transcript.append_all(&m);
        let r = transcript.get_challenge();
        let ghost old_point = point@;
        let ghost old_msgs = tables(msgs@);
        proof {
            lemma_sc_point_push(s0, old_msgs, m@);
        }
        let next_eq = fold_table(&cur_eq, r);
        let next = fold_tables(&cur, r);
        msgs.push(m);
        point.push(r);
        proof {
            lemma_folded_step(eq0, mles0, terms@, old_point, r, cur_eq@, tables(cur@), next_eq@, tables(next@));
            assert(tables(msgs@) =~= old_msgs.push(m@));
            assert(point@ =~= old_point.push(r));
            assert forall|i: int| 0 <= i < j + 1 implies honest_round(eq0, mles0, terms@, point@, #[trigger] msgs@[i]@, i) by {
                if i < j {
                    lemma_honest_round_extend(eq0, mles0, terms@, old_point, r, msgs@[i]@, i);
                } else {
                    lemma_honest_round_new(eq0, mles0, terms@, old_point, r, m@);
                }
            }
            assert(cube_size((num_vars - j) as nat) == 2 * cube_size((num_vars - j - 1) as nat));
        }
        cur_eq = next_eq;
        cur = next;
        j = j + 1;
    }
    proof {
        assert(point@.subrange(0, point@.len() as int) =~= point@);
    }
    let mut finals: Vec<Ext> = Vec::new();
    let mut k: usize = 0;
    while k < cur.len()
        invariant
            k <= cur.len(),
            finals.len() == k,
            tables(cur@) == folded(mles0, point@),
            mles0.len() == cur.len(),
            cur_eq.len() == 1,
            batch_ok(cur_eq@, tables(cur@), terms@),
            forall|i: int| 0 <= i < k ==> #[trigger] finals@[i] == mle_eval(mles0[i], point@),
        decreases cur.len() - k,
    {
        assert(tables(cur@)[k as int].len() == 1);
        finals.push(cur[k][0]);
        k = k + 1;
    }
    let e = cur_eq[0];
    (msgs, point, e, finals)
}

fn interp_exec(m: &Vec<Ext>, r: Ext) -> (v: Ext)
    requires
        m.len() == 4,
    ensures
        v == interp(m@, r),
{
    let i2 = Ext { c0: INV2, c1: 0 };
    let i6 = Ext { c0: INV6, c1: 0 };
    let d0 = r;
    let d1 = r.sub(Ext::one());
    let d2 = r.sub(Ext::from_u64(2));
    let d3 = r.sub(Ext::from_u64(3));
    let pos = m[3].mul(d0.mul(d1).mul(d2).mul(i6)).add(m[1].mul(d0.mul(d2).mul(d3).mul(i2)));
    let neg = m[0].mul(d1.mul(d2).mul(d3).mul(i6)).add(m[2].mul(d0.mul(d1).mul(d3).mul(i2)));
    pos.sub(neg)
}

/// Checks a batched sum-check proof of `num_vars` rounds against `claim`, drawing the
/// same challenges as the prover.
pub fn verify_sumcheck(
    claim: Ext,
    msgs: &Vec<Vec<Ext>>,
    num_vars: usize,
    transcript: &mut Transcript,
) -> (res: Result<SubClaim, SumcheckError>)
    ensures
        match res {
            Ok(sc) => {
                &&& sc_shape_ok(tables(msgs@), num_vars as nat)
                &&& sc_accepts(claim, tables(msgs@), old(transcript).state)
                &&& sc.point@ == sc_point(old(transcript).state, tables(msgs@))
                &&& sc.expected_evaluation == sc_claim(
                    claim,
                    tables(msgs@),
                    old(transcript).state,
                    num_vars as nat,
                )
                &&& final(transcript).state == sc_state(old(transcript).state, tables(msgs@))
            },
            Err(SumcheckError::ShapeMismatch) => !sc_shape_ok(tables(msgs@), num_vars as nat),
            Err(SumcheckError::RoundSumMismatch) => {
                &&& sc_shape_ok(tables(msgs@), num_vars as nat)
                &&& !sc_accepts(claim, tables(msgs@), old(transcript).state)
            },
        },
{
    let ghost s0 = transcript.state;
    let ghost ms = tables(msgs@);
    if msgs.len() != num_vars {
        return Err(SumcheckError::ShapeMismatch);
    }
    let mut k: usize = 0;
    while k < msgs.len()
        invariant
            k <= msgs.len(),
            ms == tables(msgs@),
            forall|i: int| 0 <= i < k ==> #[trigger] ms[i].len() == 4,
        decreases msgs.len() - k,
    {
        if msgs[k].len() != 4 {
            assert(ms[k as int].len() != 4);
            return Err(SumcheckError::ShapeMismatch);
        }
        k = k + 1;
    }
    let mut cur = claim;
    let mut point: Vec<Ext> = Vec::new();
    let mut j: usize = 0;
    proof {
        assert(ms.subrange(0, 0) =~= Seq::<Seq<Ext>>::empty());
        assert(point@ =~= sc_point(s0, ms.subrange(0, 0)));
    }
    while j < num_vars
        invariant
            j <= num_vars,
            num_vars == msgs.len(),
            ms == tables(msgs@),
            sc_shape_ok(ms, num_vars as nat),
            s0 == old(transcript).state,
            cur == sc_claim(claim, ms, s0, j as nat),
            transcript.state == sc_state(s0, ms.subrange(0, j as int)),
            point@ == sc_point(s0, ms.subrange(0, j as int)),
            forall|i: int| 0 <= i < j ==> #[trigger] sc_round_ok(claim, ms, s0, i),
        decreases num_vars - j,
    {
        let m = &msgs[j];
        assert(ms[j as int].len() == 4);
        if m[0].add(m[1]) != cur {
            assert(!sc_round_ok(claim, ms, s0, j as int));
            return Err(SumcheckError::RoundSumMismatch);
        }
        transcript.append_all(m);
        let r = transcript.get_challenge();
        proof {
            lemma_sc_point_push(s0, ms.subrange(0, j as int), ms[j as int]);
            assert(ms.subrange(0, j as int).push(ms[j as int]) =~= ms.subrange(0, j + 1));
        }
        cur = interp_exec(m, r);
        point.push(r);
        j = j + 1;
    }
    proof {
        assert(ms.subrange(0, num_vars as int) =~= ms);
    }
    Ok(SubClaim { point, expected_evaluation: cur })
}

} // verus!
