use vstd::prelude::*;

verus! {

/// A cost value of the search objective, in integer cost units.
#[derive(Clone, Copy, Debug, PartialEq, Eq, Hash, Structural)]
pub struct Cost(pub i64);

impl Cost {
    /// A cost of the given amount.
    pub fn new(value: i64) -> (c: Cost)
        ensures
            c.0 == value,
    {
        Cost(value)
    }

    /// The zero cost.
    pub fn zero() -> (c: Cost)
        ensures
            c.0 == 0,
    {
        Cost(0)
    }
}

/// One variable of a search state vector, in integer units.
#[derive(Clone, Copy, Debug, PartialEq, Eq, Hash, Structural)]
pub struct StateVariable(pub i64);

/// A named part of a traversal cost.
#[derive(Debug)]
pub struct CostComponent {
    pub name: String,
    pub cost: Cost,
}

impl View for CostComponent {
    type V = (Seq<char>, Cost);

    open spec fn view(&self) -> (Seq<char>, Cost) {
        (self.name@, self.cost)
    }
}

impl Clone for CostComponent {
    fn clone(&self) -> (r: Self)
        ensures
            r@ == self@,
    {
        CostComponent { name: self.name.clone(), cost: self.cost }
    }
}

/// The cost of traversing one edge: its total cost, the part that is
/// minimized by the search, and a breakdown by component.
#[derive(Debug)]
pub struct TraversalCost {
    pub total_cost: Cost,
    pub objective_cost: Cost,
    pub cost_component: Vec<CostComponent>,
}

/// The mathematical value of a traversal cost.
pub struct TraversalCostView {
    pub total_cost: Cost,
    pub objective_cost: Cost,
    pub cost_component: Seq<(Seq<char>, Cost)>,
}

impl View for TraversalCost {
    type V = TraversalCostView;

    open spec fn view(&self) -> TraversalCostView {
        TraversalCostView {
            total_cost: self.total_cost,
            objective_cost: self.objective_cost,
            cost_component: self.cost_component@.map_values(|c: CostComponent| c@),
        }
    }
}

impl Clone for TraversalCost {
    fn clone(&self) -> (r: Self)
        ensures
            r@ == self@,
    {
        let cc = self.cost_component.clone();
        proof {
            assert forall|i: int| 0 <= i < cc@.len() implies cc@[i]@ == self.cost_component@[i]@ by {
                assert(cloned::<CostComponent>(self.cost_component@[i], cc@[i]));
            }
            assert(cc@.map_values(|c: CostComponent| c@) =~= self.cost_component@.map_values(|c: CostComponent| c@));
        }
        TraversalCost {
            total_cost: self.total_cost,
            objective_cost: self.objective_cost,
            cost_component: cc,
        }
    }
}

impl Default for TraversalCost {
    /// A traversal cost of zero with no components.
    fn default() -> (c: TraversalCost)
        ensures
            c.total_cost.0 == 0,
            c.objective_cost.0 == 0,
            c@.cost_component.len() == 0,
    {
        TraversalCost::zero()
    }
}

impl TraversalCost {
    /// A traversal cost of zero with no components.
    pub fn zero() -> (c: TraversalCost)
        ensures
            c.total_cost.0 == 0,
            c.objective_cost.0 == 0,
            c@.cost_component.len() == 0,
    {
        TraversalCost { total_cost: Cost(0), objective_cost: Cost(0), cost_component: Vec::new() }
    }
}

} // verus!
