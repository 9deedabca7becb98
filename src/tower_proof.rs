use crate::field::{ext_zero, Ext};
use crate::mle::tables;
use crate::witness::layers;
use vstd::prelude::*;

verus! {

/// An opening point with the value claimed there.
pub struct PointAndEval {
    pub point: Vec<Ext>,
    pub eval: Ext,
}

impl PointAndEval {
    pub fn new(point: Vec<Ext>, eval: Ext) -> (r: PointAndEval)
        ensures
            r.point@ == point@,
            r.eval == eval,
    {
        PointAndEval { point, eval }
    }

    /// The empty point with value zero: the claim of a tower that has no round.
    pub fn empty() -> (r: PointAndEval)
        ensures
            r.point@.len() == 0,
            r.eval == ext_zero(),
    {
        PointAndEval { point: Vec::new(), eval: Ext::zero() }
    }
}

/// A tower proof: per round, the sum-check messages of the batched claim; per spec and
/// per round, the evaluations it claims and the point they were taken at.
pub struct TowerProofs {
    pub proofs: Vec<Vec<Vec<Ext>>>,
    pub prod_specs_eval: Vec<Vec<Vec<Ext>>>,
    pub logup_specs_eval: Vec<Vec<Vec<Ext>>>,
    pub prod_specs_points: Vec<Vec<Vec<Ext>>>,
    pub logup_specs_points: Vec<Vec<Vec<Ext>>>,
}

/// `n` empty lists.
pub open spec fn empty_lists(n: nat) -> Seq<Seq<Seq<Ext>>> {
    Seq::new(n, |i: int| Seq::<Seq<Ext>>::empty())
}

fn empty_lists_exec(n: usize) -> (v: Vec<Vec<Vec<Ext>>>)
    ensures
        layers(v@) == empty_lists(n as nat),
{
    let mut v: Vec<Vec<Vec<Ext>>> = Vec::new();
    let mut i: usize = 0;
    while i < n
        invariant
            i <= n,
            v.len() == i,
            layers(v@) == empty_lists(i as nat),
        decreases n - i,
    {
        let ghost before = layers(v@);
        v.push(Vec::new());
        i = i + 1;
        proof {
            assert(tables(v@[i - 1]@) =~= Seq::<Seq<Ext>>::empty());
            assert forall|k: int| 0 <= k < i - 1 implies #[trigger] layers(v@)[k] == before[k] by {}
            assert(layers(v@) =~= empty_lists(i as nat));
        }
    }
    v
}

impl TowerProofs {
    /// The lists of all specs: per spec, per round.
    pub open spec fn prod_evals(&self) -> Seq<Seq<Seq<Ext>>> {
        layers(self.prod_specs_eval@)
    }

    pub open spec fn logup_evals(&self) -> Seq<Seq<Seq<Ext>>> {
        layers(self.logup_specs_eval@)
    }

    pub open spec fn prod_points(&self) -> Seq<Seq<Seq<Ext>>> {
        layers(self.prod_specs_points@)
    }

    pub open spec fn logup_points(&self) -> Seq<Seq<Seq<Ext>>> {
        layers(self.logup_specs_points@)
    }

    pub open spec fn rounds(&self) -> Seq<Seq<Seq<Ext>>> {
        layers(self.proofs@)
    }

    /// An empty proof for the given numbers of product and logup specs.
    pub fn new(prod_spec_size: usize, logup_spec_size: usize) -> (r: TowerProofs)
        ensures
            r.rounds().len() == 0,
            r.prod_evals() == empty_lists(prod_spec_size as nat),
            r.prod_points() == empty_lists(prod_spec_size as nat),
            r.logup_evals() == empty_lists(logup_spec_size as nat),
            r.logup_points() == empty_lists(logup_spec_size as nat),
            r.prod_specs_eval.len() == prod_spec_size,
            r.prod_specs_points.len() == prod_spec_size,
            r.logup_specs_eval.len() == logup_spec_size,
            r.logup_specs_points.len() == logup_spec_size,
    {
        TowerProofs {
            proofs: Vec::new(),
            prod_specs_eval: empty_lists_exec(prod_spec_size),
            logup_specs_eval: empty_lists_exec(logup_spec_size),
            prod_specs_points: empty_lists_exec(prod_spec_size),
            logup_specs_points: empty_lists_exec(logup_spec_size),
        }
    }

    /// Appends the sum-check messages of one round.
    pub fn push_sumcheck_proofs(&mut self, proofs: Vec<Vec<Ext>>)
        ensures
            final(self).rounds() == old(self).rounds().push(crate::mle::tables(proofs@)),
            final(self).prod_evals() == old(self).prod_evals(),
            final(self).prod_points() == old(self).prod_points(),
            final(self).logup_evals() == old(self).logup_evals(),
            final(self).logup_points() == old(self).logup_points(),
            final(self).prod_specs_eval.len() == old(self).prod_specs_eval.len(),
            final(self).prod_specs_points.len() == old(self).prod_specs_points.len(),
            final(self).logup_specs_eval.len() == old(self).logup_specs_eval.len(),
            final(self).logup_specs_points.len() == old(self).logup_specs_points.len(),
    {
        self.proofs.push(proofs);
        proof {
            assert(self.rounds() =~= old(self).rounds().push(crate::mle::tables(proofs@)));
        }
    }

    /// Records one round's evaluations and point for product spec `spec_index`.
    pub fn push_prod_evals_and_point(&mut self, spec_index: usize, evals: Vec<Ext>, point: Vec<Ext>)
        requires
            spec_index < old(self).prod_specs_eval.len(),
            spec_index < old(self).prod_specs_points.len(),
        ensures
            final(self).prod_evals() == old(self).prod_evals().update(
                spec_index as int,
                old(self).prod_evals()[spec_index as int].push(evals@),
            ),
            final(self).prod_points() == old(self).prod_points().update(
                spec_index as int,
                old(self).prod_points()[spec_index as int].push(point@),
            ),
            final(self).rounds() == old(self).rounds(),
            final(self).logup_evals() == old(self).logup_evals(),
            final(self).logup_points() == old(self).logup_points(),
            final(self).prod_specs_eval.len() == old(self).prod_specs_eval.len(),
            final(self).prod_specs_points.len() == old(self).prod_specs_points.len(),
            final(self).logup_specs_eval.len() == old(self).logup_specs_eval.len(),
            final(self).logup_specs_points.len() == old(self).logup_specs_points.len(),
    {
        self.prod_specs_eval[spec_index].push(evals);
        self.prod_specs_points[spec_index].push(point);
        proof {
            assert(self.prod_evals()[spec_index as int] =~= old(self).prod_evals()[spec_index as int].push(evals@));
            assert(self.prod_evals() =~= old(self).prod_evals().update(
                spec_index as int,
                old(self).prod_evals()[spec_index as int].push(evals@),
            ));
            assert(self.prod_points()[spec_index as int] =~= old(self).prod_points()[spec_index as int].push(point@));
            assert(self.prod_points() =~= old(self).prod_points().update(
                spec_index as int,
                old(self).prod_points()[spec_index as int].push(point@),
            ));
        }
    }

    /// Records one round's evaluations `[p1, p2, q1, q2]` and point for logup spec
    /// `spec_index`.
    pub fn push_logup_evals_and_point(&mut self, spec_index: usize, evals: Vec<Ext>, point: Vec<Ext>)
        requires
            spec_index < old(self).logup_specs_eval.len(),
            spec_index < old(self).logup_specs_points.len(),
        ensures
            final(self).logup_evals() == old(self).logup_evals().update(
                spec_index as int,
                old(self).logup_evals()[spec_index as int].push(evals@),
            ),
            final(self).logup_points() == old(self).logup_points().update(
                spec_index as int,
                old(self).logup_points()[spec_index as int].push(point@),
            ),
            final(self).rounds() == old(self).rounds(),
            final(self).prod_evals() == old(self).prod_evals(),
            final(self).prod_points() == old(self).prod_points(),
            final(self).prod_specs_eval.len() == old(self).prod_specs_eval.len(),
            final(self).prod_specs_points.len() == old(self).prod_specs_points.len(),
            final(self).logup_specs_eval.len() == old(self).logup_specs_eval.len(),
            final(self).logup_specs_points.len() == old(self).logup_specs_points.len(),
    {
        self.logup_specs_eval[spec_index].push(evals);
        self.logup_specs_points[spec_index].push(point);
        proof {
            assert(self.logup_evals()[spec_index as int] =~= old(self).logup_evals()[spec_index as int].push(evals@));
            assert(self.logup_evals() =~= old(self).logup_evals().update(
                spec_index as int,
                old(self).logup_evals()[spec_index as int].push(evals@),
            ));
            assert(self.logup_points()[spec_index as int] =~= old(self).logup_points()[spec_index as int].push(point@));
            assert(self.logup_points() =~= old(self).logup_points().update(
                spec_index as int,
                old(self).logup_points()[spec_index as int].push(point@),
            ));
        }
    }

    pub fn prod_spec_size(&self) -> (r: usize)
        ensures
            r == self.prod_specs_eval.len(),
    {
        self.prod_specs_eval.len()
    }

    pub fn logup_spec_size(&self) -> (r: usize)
        ensures
            r == self.logup_specs_eval.len(),
    {
        self.logup_specs_eval.len()
    }
}

} // verus!
