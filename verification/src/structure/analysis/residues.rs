//! A residue: what survives stress, a force mapped onto a component. A
//! whole-system residue leaves the software boundary (hardware, process,
//! organisation, policy).

use vstd::prelude::*;

use crate::text::{contains_str, has_infix, lowercase, str_eq, to_lower};

verus! {

pub const WHOLE_SYSTEM_STATUS: &'static str = "whole-system-residue";

pub const WHOLE_SYSTEM_COMPONENT: &'static str = "whole-system";

#[derive(Debug, PartialEq, Eq)]
pub struct Residue {
    pub id: String,
    pub force_id: String,
    pub component_id: String,
    pub status: String,
    pub notes: String,
}

impl Clone for Residue {
    fn clone(&self) -> (r: Self)
        ensures
            r == *self,
    {
        Residue {
            id: self.id.clone(),
            force_id: self.force_id.clone(),
            component_id: self.component_id.clone(),
            status: self.status.clone(),
            notes: self.notes.clone(),
        }
    }
}

/// The residue is a whole-system residue: by its status or its component.
pub open spec fn whole_system_residue(r: Residue) -> bool {
    r.status@ == "whole-system-residue"@ || r.component_id@ == "whole-system"@
}

/// The naive change already names a whole-system residue.
pub open spec fn accepts_whole_system(naive_change: Seq<char>) -> bool {
    has_infix(lowercase(naive_change), "whole-system-residue"@)
}

impl Residue {
    /// A residue mapping a force to a component, with no status or notes.
    pub fn new(id: &str, force_id: &str, component_id: &str) -> (r: Residue)
        ensures
            r.id@ == id@,
            r.force_id@ == force_id@,
            r.component_id@ == component_id@,
            r.status@ == Seq::<char>::empty(),
            r.notes@ == Seq::<char>::empty(),
    {
        Residue {
            id: String::from_str(id),
            force_id: String::from_str(force_id),
            component_id: String::from_str(component_id),
            status: String::new(),
            notes: String::new(),
        }
    }

    /// A whole-system residue of a force.
    pub fn whole_system(id: &str, force_id: &str, notes: &str) -> (r: Residue)
        ensures
            r.id@ == id@,
            r.force_id@ == force_id@,
            r.component_id@ == "whole-system"@,
            r.status@ == "whole-system-residue"@,
            r.notes@ == notes@,
    {
        Residue {
            id: String::from_str(id),
            force_id: String::from_str(force_id),
            component_id: String::from_str(WHOLE_SYSTEM_COMPONENT),
            status: String::from_str(WHOLE_SYSTEM_STATUS),
            notes: String::from_str(notes),
        }
    }

    pub fn is_whole_system(&self) -> (r: bool)
        ensures
            r == whole_system_residue(*self),
    {
        is_whole_system_residue(self)
    }
}

/// Whether the naive change (lower-cased) mentions `whole-system-residue`.
pub fn naive_change_accepts_whole_system(naive_change: &str) -> (r: bool)
    ensures
        r == accepts_whole_system(naive_change@),
{
    let lowered = to_lower(naive_change);
    contains_str(lowered.as_str(), WHOLE_SYSTEM_STATUS)
}

pub fn is_whole_system_residue(residue: &Residue) -> (r: bool)
    ensures
        r == whole_system_residue(*residue),
{
    str_eq(residue.status.as_str(), WHOLE_SYSTEM_STATUS) || str_eq(
        residue.component_id.as_str(),
        WHOLE_SYSTEM_COMPONENT,
    )
}

/// The naive change marked as a whole-system residue: unchanged when it
/// already says so, else prefixed with `whole-system-residue: `.
pub fn tag_naive_change_whole_system(naive_change: &str) -> (r: String)
    ensures
        accepts_whole_system(naive_change@) ==> r@ == naive_change@,
        !accepts_whole_system(naive_change@) ==> r@ == "whole-system-residue: "@ + naive_change@,
{
    if naive_change_accepts_whole_system(naive_change) {
        String::from_str(naive_change)
    } else {
        let mut r = String::from_str("whole-system-residue: ");
        r.append(naive_change);
        r
    }
}

} // verus!
