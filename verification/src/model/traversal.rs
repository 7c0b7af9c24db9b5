use vstd::prelude::*;
use crate::cost::StateVariable;
use crate::model::state::StateModel;
use crate::network::{Edge, Vertex};
use crate::search::search_tree::{SearchTree, SearchTreeView};

verus! {

/// Errors raised while traversing an edge.
#[derive(Debug, PartialEq, Eq, Structural)]
pub enum TraversalModelError {
    /// the state has no variable at the feature index the model writes
    FeatureIndexOutOfRange(usize),
    /// the updated value does not fit in a state variable
    ValueOverflow,
}

/// Updates the search state when an edge is traversed, and estimates the
/// state change between two vertices for the A* heuristic.
pub trait TraversalModel {
    /// Whether this model may leave the state `after`, succeeding or not as `succeeded`
    /// says, when asked to traverse the middle edge of `trajectory` from the state `before`.
    /// A model that does not say allows every answer.
    open spec fn traversal_answer(&self, trajectory: (Vertex, Edge, Vertex), before: Seq<StateVariable>, after: Seq<StateVariable>,
        tree: SearchTreeView, state_model: StateModel, succeeded: bool) -> bool {
        true
    }

    /// Whether this model may leave the state `after`, succeeding or not as `succeeded`
    /// says, when asked to estimate the change from the first vertex of `od` to the second from the state `before`.
    /// A model that does not say allows every answer.
    open spec fn estimate_answer(&self, od: (Vertex, Vertex), before: Seq<StateVariable>, after: Seq<StateVariable>,
        tree: SearchTreeView, state_model: StateModel, succeeded: bool) -> bool {
        true
    }

    /// Updates `state` for a traversal of the middle edge of `trajectory`.
    fn traverse_edge(
        &self,
        trajectory: (&Vertex, &Edge, &Vertex),
        state: &mut Vec<StateVariable>,
        tree: &SearchTree,
        state_model: &StateModel,
    ) -> (r: Result<(), TraversalModelError>)
        ensures
            self.traversal_answer((*trajectory.0, *trajectory.1, *trajectory.2), old(state)@, final(state)@, tree@, *state_model, r is Ok);

    /// Updates `state` with an estimate of the change from the first vertex of `od` to the second.
    fn estimate_traversal(
        &self,
        od: (&Vertex, &Vertex),
        state: &mut Vec<StateVariable>,
        tree: &SearchTree,
        state_model: &StateModel,
    ) -> (r: Result<(), TraversalModelError>)
        ensures
            self.estimate_answer((*od.0, *od.1), old(state)@, final(state)@, tree@, *state_model, r is Ok);
}

/// The largest of the coordinate differences of two vertices: a distance that
/// never exceeds the straight-line distance between them.
pub open spec fn chebyshev(a: Vertex, b: Vertex) -> int {
    let dx = if a.x >= b.x { a.x - b.x } else { b.x - a.x };
    let dy = if a.y >= b.y { a.y - b.y } else { b.y - a.y };
    if dx >= dy { dx } else { dy }
}

/// The state after adding `amount` to the variable at `index`, when it fits.
pub open spec fn added_at(state: Seq<StateVariable>, index: int, amount: int) -> Option<Seq<StateVariable>> {
    if 0 <= index < state.len() && i64::MIN <= state[index].0 + amount <= i64::MAX {
        Some(state.update(index, StateVariable((state[index].0 + amount) as i64)))
    } else {
        None
    }
}

/// Accumulates travelled distance into one state variable.
#[derive(Debug, Clone, Copy)]
pub struct DistanceTraversalModel {
    pub distance_index: usize,
}

impl DistanceTraversalModel {
    /// A distance model writing to the state variable at `distance_index`.
    pub fn new(distance_index: usize) -> (m: DistanceTraversalModel)
        ensures
            m.distance_index == distance_index,
    {
        DistanceTraversalModel { distance_index }
    }

    fn add_distance(&self, state: &mut Vec<StateVariable>, amount: i128) -> (r: Result<(), TraversalModelError>)
        requires
            0 <= amount <= u64::MAX,
        ensures
            match added_at(old(state)@, self.distance_index as int, amount as int) {
                Some(s) => r is Ok && final(state)@ == s,
                None => r is Err && final(state)@ == old(state)@,
            },
            self.distance_index >= old(state)@.len() ==> r == Err::<(), TraversalModelError>(
                TraversalModelError::FeatureIndexOutOfRange(self.distance_index)),
    {
        let i = self.distance_index;
        if i >= state.len() {
            return Err(TraversalModelError::FeatureIndexOutOfRange(i));
        }
        let current: i128 = state[i].0 as i128;
        let updated: i128 = current + amount;
        if updated > i64::MAX as i128 {
            return Err(TraversalModelError::ValueOverflow);
        }
        state.set(i, StateVariable(updated as i64));
        Ok(())
    }
}

impl TraversalModel for DistanceTraversalModel {
    /// The edge's length added to the distance variable, when it fits.
    open spec fn traversal_answer(&self, trajectory: (Vertex, Edge, Vertex), before: Seq<StateVariable>, after: Seq<StateVariable>,
        tree: SearchTreeView, state_model: StateModel, succeeded: bool) -> bool {
        match added_at(before, self.distance_index as int, trajectory.1.distance as int) {
            Some(s) => succeeded && after == s,
            None => !succeeded && after == before,
        }
    }

    /// The Chebyshev distance of the two vertices added to the distance variable, when it fits.
    open spec fn estimate_answer(&self, od: (Vertex, Vertex), before: Seq<StateVariable>, after: Seq<StateVariable>,
        tree: SearchTreeView, state_model: StateModel, succeeded: bool) -> bool {
        match added_at(before, self.distance_index as int, chebyshev(od.0, od.1)) {
            Some(s) => succeeded && after == s,
            None => !succeeded && after == before,
        }
    }

    /// Adds the edge's length to the distance variable.
    fn traverse_edge(
        &self,
        trajectory: (&Vertex, &Edge, &Vertex),
        state: &mut Vec<StateVariable>,
        tree: &SearchTree,
        state_model: &StateModel,
    ) -> (r: Result<(), TraversalModelError>)
        ensures
            match added_at(old(state)@, self.distance_index as int, trajectory.1.distance as int) {
                Some(s) => r is Ok && final(state)@ == s,
                None => r is Err && final(state)@ == old(state)@,
            },
    {
        let (_, edge, _) = trajectory;
        self.add_distance(state, edge.distance as i128)
    }

    /// Adds the Chebyshev distance between the two vertices to the distance variable.
    fn estimate_traversal(
        &self,
        od: (&Vertex, &Vertex),
        state: &mut Vec<StateVariable>,
        tree: &SearchTree,
        state_model: &StateModel,
    ) -> (r: Result<(), TraversalModelError>)
        ensures
            match added_at(old(state)@, self.distance_index as int, chebyshev(*od.0, *od.1)) {
                Some(s) => r is Ok && final(state)@ == s,
                None => r is Err && final(state)@ == old(state)@,
            },
    {
        let (a, b) = od;
        let dx: i128 = if a.x >= b.x { a.x as i128 - b.x as i128 } else { b.x as i128 - a.x as i128 };
        let dy: i128 = if a.y >= b.y { a.y as i128 - b.y as i128 } else { b.y as i128 - a.y as i128 };
        let d: i128 = if dx >= dy { dx } else { dy };
        self.add_distance(state, d)
    }
}

} // verus!
