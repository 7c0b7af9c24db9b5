use vstd::prelude::*;
use crate::cost::{Cost, StateVariable, TraversalCost};
use crate::model::state::StateModel;
use crate::network::{Edge, Vertex};
use crate::search::search_tree::SearchTree;

verus! {

/// Errors raised while computing a cost.
#[derive(Debug, PartialEq, Eq, Structural)]
pub enum CostModelError {
    /// the state had `.1` variables where the model has `.0` weights
    StateLengthMismatch(usize, usize),
    /// the weighted sum does not fit in a cost value
    CostOverflow,
}

/// The weighted sum of the first `n` state variables.
pub open spec fn weighted_prefix(w: Seq<i64>, s: Seq<StateVariable>, n: nat) -> int
    decreases n,
{
    if n == 0 {
        0
    } else {
        weighted_prefix(w, s, (n - 1) as nat) + w[n - 1] * s[n - 1].0
    }
}

/// Whether every partial weighted sum fits in a cost value.
pub open spec fn sums_fit(w: Seq<i64>, s: Seq<StateVariable>) -> bool {
    forall|k: nat| k <= s.len() ==> i64::MIN <= #[trigger] weighted_prefix(w, s, k) <= i64::MAX
}

/// Whether a cost is defined for state `s` under weights `w`.
pub open spec fn cost_defined(w: Seq<i64>, s: Seq<StateVariable>) -> bool {
    w.len() == s.len() && sums_fit(w, s)
}

/// The cost of a state: the sum of each state variable times its weight.
pub open spec fn state_cost(w: Seq<i64>, s: Seq<StateVariable>) -> int {
    weighted_prefix(w, s, s.len())
}

/// Setting one state variable changes the weighted sum of a prefix that holds it by the
/// weighted change of that variable.
pub proof fn lemma_prefix_update(w: Seq<i64>, s: Seq<StateVariable>, i: int, x: i64, n: nat)
    requires
        0 <= i < s.len(),
        n <= s.len(),
    ensures
        weighted_prefix(w, s.update(i, StateVariable(x)), n)
            == weighted_prefix(w, s, n) + (if i < n { w[i] * x - w[i] * s[i].0 } else { 0 }),
    decreases n,
{
    if n > 0 {
        lemma_prefix_update(w, s, i, x, (n - 1) as nat);
    }
}

/// Turns a search state into a cost: one weight per state feature.
#[derive(Clone, Debug)]
pub struct CostModel {
    pub weights: Vec<i64>,
}

impl CostModel {
    /// A cost model with one weight per state feature.
    pub fn new(weights: Vec<i64>) -> (m: CostModel)
        ensures
            m.weights@ == weights@,
    {
        CostModel { weights }
    }

    /// The weighted sum of `state`.
    pub fn state_cost(&self, state: &Vec<StateVariable>) -> (r: Result<Cost, CostModelError>)
        ensures
            self.weights@.len() != state@.len() ==> r == Err::<Cost, CostModelError>(
                CostModelError::StateLengthMismatch(self.weights@.len() as usize, state@.len() as usize)),
            self.weights@.len() == state@.len() && !sums_fit(self.weights@, state@) ==> r == Err::<Cost, CostModelError>(CostModelError::CostOverflow),
            cost_defined(self.weights@, state@) ==> (r matches Ok(c) && c.0 == state_cost(self.weights@, state@)),
    {
        if self.weights.len() != state.len() {
            return Err(CostModelError::StateLengthMismatch(self.weights.len(), state.len()));
        }
        let ghost w = self.weights@;
        let ghost s = state@;
        let mut acc: i128 = 0;
        let mut i: usize = 0;
        while i < state.len()
            invariant
                w == self.weights@,
                s == state@,
                w.len() == s.len(),
                0 <= i <= s.len(),
                acc == weighted_prefix(w, s, i as nat),
                forall|k: nat| k <= i ==> i64::MIN <= #[trigger] weighted_prefix(w, s, k) <= i64::MAX,
            decreases s.len() - i,
        {
            let a: i128 = self.weights[i] as i128;
            let b: i128 = state[i].0 as i128;
            assert(-0x4000_0000_0000_0000_0000_0000_0000_0000 <= a * b <= 0x4000_0000_0000_0000_0000_0000_0000_0000) by (nonlinear_arith)
                requires
                    i64::MIN <= a <= i64::MAX,
                    i64::MIN <= b <= i64::MAX;
            let p: i128 = a * b;
            acc = acc + p;
            assert(acc == weighted_prefix(w, s, (i + 1) as nat));
            if acc < i64::MIN as i128 || acc > i64::MAX as i128 {
                proof {
                    assert(!(i64::MIN <= weighted_prefix(w, s, (i + 1) as nat) <= i64::MAX));
                }
                return Err(CostModelError::CostOverflow);
            }
            i = i + 1;
        }
        Ok(Cost(acc as i64))
    }

    /// The cost of a traversal that ended in `state`.
    pub fn traversal_cost(
        &self,
        trajectory: (&Vertex, &Edge, &Vertex),
        state: &Vec<StateVariable>,
        tree: &SearchTree,
        state_model: &StateModel,
    ) -> (r: Result<TraversalCost, CostModelError>)
        ensures
            cost_defined(self.weights@, state@) ==> (r matches Ok(tc) && tc.objective_cost.0 == state_cost(self.weights@, state@)
                && tc.total_cost == tc.objective_cost && tc.cost_component@.len() == 0),
            !cost_defined(self.weights@, state@) ==> r is Err,
    {
        match self.state_cost(state) {
            Ok(c) => Ok(TraversalCost { total_cost: c, objective_cost: c, cost_component: Vec::new() }),
            Err(e) => Err(e),
        }
    }

    /// The cost of an estimated state, for the A* heuristic.
    pub fn estimate_cost(&self, state: &Vec<StateVariable>, state_model: &StateModel) -> (r: Result<TraversalCost, CostModelError>)
        ensures
            cost_defined(self.weights@, state@) ==> (r matches Ok(tc) && tc.objective_cost.0 == state_cost(self.weights@, state@)
                && tc.total_cost == tc.objective_cost && tc.cost_component@.len() == 0),
            !cost_defined(self.weights@, state@) ==> r is Err,
    {
        match self.state_cost(state) {
            Ok(c) => Ok(TraversalCost { total_cost: c, objective_cost: c, cost_component: Vec::new() }),
            Err(e) => Err(e),
        }
    }
}

} // verus!
