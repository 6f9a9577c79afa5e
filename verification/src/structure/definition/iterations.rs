//! An architecture iteration: its number, date, Ri score, N/K/P values,
//! notes and the component names it settled on.

use vstd::prelude::*;

verus! {

#[derive(Debug, Clone, PartialEq, Eq)]
pub struct Iteration {
    pub n: usize,
    pub date: String,
    pub ri_score: String,
    pub n_val: String,
    pub k_val: String,
    pub p_val: String,
    pub notes: String,
    pub iteration_complete: bool,
    pub component_names: Vec<String>,
}

impl Iteration {
    /// An empty, incomplete iteration numbered `n`.
    pub fn new(n: usize) -> (r: Iteration)
        ensures
            r.n == n,
            r.date@ == Seq::<char>::empty(),
            r.ri_score@ == Seq::<char>::empty(),
            r.n_val@ == Seq::<char>::empty(),
            r.k_val@ == Seq::<char>::empty(),
            r.p_val@ == Seq::<char>::empty(),
            r.notes@ == Seq::<char>::empty(),
            !r.iteration_complete,
            r.component_names@ == Seq::<String>::empty(),
    {
        Iteration {
            n,
            date: String::new(),
            ri_score: String::new(),
            n_val: String::new(),
            k_val: String::new(),
            p_val: String::new(),
            notes: String::new(),
            iteration_complete: false,
            component_names: Vec::new(),
        }
    }
}

} // verus!
