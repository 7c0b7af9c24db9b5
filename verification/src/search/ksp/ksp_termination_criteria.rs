use vstd::prelude::*;
use crate::text::{appended, decimal, u64_decimal};

verus! {

/// When a k-shortest-paths search stops collecting routes.
#[derive(Clone, Copy, Debug, PartialEq, Eq, Structural)]
pub enum KspTerminationCriteria {
    /// run exactly k iterations
    Exact,
    /// run up to `max` solutions found when possible
    MaxIteration { max: u64 },
    /// run k * `factor` solutions found when possible
    Factor { factor: u64 },
}

impl Default for KspTerminationCriteria {
    fn default() -> (c: KspTerminationCriteria)
        ensures
            c == KspTerminationCriteria::Exact,
    {
        KspTerminationCriteria::Exact
    }
}

/// Whether a search asked for `k` routes stops with `solution_size` routes found.
pub open spec fn terminates(c: KspTerminationCriteria, k: usize, solution_size: usize) -> bool {
    match c {
        KspTerminationCriteria::Exact => solution_size == k,
        KspTerminationCriteria::MaxIteration { max } => solution_size >= max,
        KspTerminationCriteria::Factor { factor } => solution_size >= k * factor,
    }
}

/// The sentence that describes when a search with these criteria stops.
pub open spec fn description_text(c: KspTerminationCriteria) -> Seq<char> {
    match c {
        KspTerminationCriteria::Exact => "terminate with up to k routes found"@,
        KspTerminationCriteria::MaxIteration { max } => "terminate with "@ + decimal(max as nat)
            + " routes found"@,
        KspTerminationCriteria::Factor { factor } => "terminate with k*"@ + decimal(factor as nat)
            + " routes found"@,
    }
}

impl KspTerminationCriteria {
    /// A sentence that says when a search with these criteria stops.
    pub fn description(&self) -> (s: String)
        ensures
            s@ == description_text(*self),
    {
        match self {
            KspTerminationCriteria::Exact => "terminate with up to k routes found".to_owned(),
            KspTerminationCriteria::MaxIteration { max } => {
                let n = u64_decimal(*max);
                appended(appended("terminate with ".to_owned(), n.as_str()), " routes found")
            },
            KspTerminationCriteria::Factor { factor } => {
                let n = u64_decimal(*factor);
                appended(appended("terminate with k*".to_owned(), n.as_str()), " routes found")
            },
        }
    }

    /// Whether a search asked for `k` routes stops now that it holds `solution_size`
    /// routes; tested before each pop of the search frontier. `Exact` stops at k routes,
    /// `MaxIteration` once `max` routes are found, `Factor` once k * `factor` routes are
    /// found. Invalid settings (a `max` below k, a `factor` of at most 1) are not rejected.
    pub fn terminate_search(&self, k: usize, solution_size: usize) -> (b: bool)
        ensures
            b == terminates(*self, k, solution_size),
    {
        match self {
            KspTerminationCriteria::Exact => solution_size == k,
            KspTerminationCriteria::MaxIteration { max } => solution_size as u64 >= *max,
            KspTerminationCriteria::Factor { factor } => {
                let f: u128 = *factor as u128;
                let n: u128 = k as u128;
                assert(n * f <= u64::MAX * u64::MAX) by (nonlinear_arith)
                    requires
                        f <= u64::MAX,
                        n <= u64::MAX;
                solution_size as u128 >= n * f
            },
        }
    }
}

} // verus!
