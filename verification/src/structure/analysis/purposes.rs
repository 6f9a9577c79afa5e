//! A purpose: a force of kind `Purpose`, with the feature it enables.

use vstd::prelude::*;

use crate::structure::analysis::force::{Force, ForceKind};

verus! {

#[derive(Debug, PartialEq, Eq)]
pub struct Purpose {
    pub force: Force,
    pub feature: String,
}

impl Purpose {
    /// A purpose with no feature, description or attractor.
    pub fn new(id: &str, shortname: &str, naive_change: &str, outcomes: Vec<String>) -> (r: Purpose)
        ensures
            r.force.id@ == id@,
            r.force.kind == ForceKind::Purpose,
            r.force.shortname@ == shortname@,
            r.force.naive_change@ == naive_change@,
            r.force.outcomes@ == outcomes@,
            r.force.description@ == Seq::<char>::empty(),
            r.force.attractor_id@ == Seq::<char>::empty(),
            r.feature@ == Seq::<char>::empty(),
    {
        Purpose { force: Force::purpose(id, shortname, naive_change, outcomes), feature: String::new() }
    }

    pub fn as_force(&self) -> (r: &Force)
        ensures
            *r == self.force,
    {
        &self.force
    }
}

} // verus!
