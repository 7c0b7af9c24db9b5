use vstd::prelude::*;
use crate::cost::StateVariable;

verus! {

/// Errors raised by the state model.
#[derive(Debug, PartialEq, Eq, Structural)]
pub enum StateModelError {
    /// a state vector had `.1` variables where the model has `.0` features
    UnexpectedStateLength(usize, usize),
    /// no feature is registered at this index
    UnknownFeatureIndex(usize),
}

/// The features of a search state, in order, with the value each one starts from.
#[derive(Clone, Debug)]
pub struct StateModel {
    pub initial_values: Vec<StateVariable>,
}

impl StateModel {
    /// A state model with the given starting value of each feature.
    pub fn new(initial_values: Vec<StateVariable>) -> (m: StateModel)
        ensures
            m.initial_values@ == initial_values@,
    {
        StateModel { initial_values }
    }

    /// A state model without features.
    pub fn empty() -> (m: StateModel)
        ensures
            m.initial_values@.len() == 0,
    {
        StateModel { initial_values: Vec::new() }
    }

    /// The number of features.
    pub fn len(&self) -> (n: usize)
        ensures
            n == self.initial_values@.len(),
    {
        self.initial_values.len()
    }

    /// Whether the model has no features.
    pub fn is_empty(&self) -> (b: bool)
        ensures
            b == (self.initial_values@.len() == 0),
    {
        self.initial_values.len() == 0
    }

    /// The state a traversal starts from: the starting value of every feature when
    /// `previous` is `None`, else a copy of `previous`, which must have one variable
    /// per feature.
    pub fn initial_state(&self, previous: Option<&Vec<StateVariable>>) -> (r: Result<Vec<StateVariable>, StateModelError>)
        ensures
            match previous {
                None => r matches Ok(s) && s@ == self.initial_values@,
                Some(p) => if p@.len() == self.initial_values@.len() {
                    r matches Ok(s) && s@ == p@
                } else {
                    r == Err::<Vec<StateVariable>, StateModelError>(
                        StateModelError::UnexpectedStateLength(self.initial_values@.len() as usize, p@.len() as usize))
                },
            },
    {
        match previous {
            None => {
                let s = self.initial_values.clone();
                proof { assert(s@ =~= self.initial_values@); }
                Ok(s)
            },
            Some(p) => {
                if p.len() == self.initial_values.len() {
                    let s = p.clone();
                    proof { assert(s@ =~= p@); }
                    Ok(s)
                } else {
                    Err(StateModelError::UnexpectedStateLength(self.initial_values.len(), p.len()))
                }
            },
        }
    }
}

} // verus!
