//! A stressor: a force of kind `Stressor`, with an optional detection
//! mechanism.

use vstd::prelude::*;

use crate::structure::analysis::force::{Force, ForceKind};

verus! {

#[derive(Debug, PartialEq, Eq)]
pub struct Stressor {
    pub force: Force,
    /// How the stress would be noticed (a field, not a component).
    pub detection_mechanism: String,
}

impl Stressor {
    /// A stressor with no detection mechanism, description or attractor.
    pub fn new(id: &str, shortname: &str, naive_change: &str, outcomes: Vec<String>) -> (r: Stressor)
        ensures
            r.force.id@ == id@,
            r.force.kind == ForceKind::Stressor,
            r.force.shortname@ == shortname@,
            r.force.naive_change@ == naive_change@,
            r.force.outcomes@ == outcomes@,
            r.force.description@ == Seq::<char>::empty(),
            r.force.attractor_id@ == Seq::<char>::empty(),
            r.detection_mechanism@ == Seq::<char>::empty(),
    {
        Stressor {
            force: Force::stressor(id, shortname, naive_change, outcomes),
            detection_mechanism: String::new(),
        }
    }

    pub fn as_force(&self) -> (r: &Force)
        ensures
            *r == self.force,
    {
        &self.force
    }
}

} // verus!
