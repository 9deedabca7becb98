use crate::tower_proof::PointAndEval;
use vstd::prelude::*;

verus! {

/// Number of variables of the instances of each node of a circuit graph.
#[derive(Clone, Debug, Default)]
pub struct CircuitGraphAuxInfo {
    pub instance_num_vars: Vec<usize>,
}

/// The opening claims that correspond to the targets of a circuit graph.
pub struct TargetEvaluations(pub Vec<PointAndEval>);

} // verus!
