//! A force: the purpose or stressor half of a residue. It carries a
//! shortname, a naive change and outcomes; components are mapped on the
//! residue, not here.

use vstd::prelude::*;

verus! {

#[derive(Debug, Clone, Copy, PartialEq, Eq, Structural)]
pub enum ForceKind {
    Purpose,
    Stressor,
}

#[derive(Debug, PartialEq, Eq)]
pub struct Force {
    pub id: String,
    pub kind: ForceKind,
    pub shortname: String,
    pub naive_change: String,
    pub outcomes: Vec<String>,
    pub description: String,
    pub attractor_id: String,
}

impl Clone for Force {
    fn clone(&self) -> (r: Self)
        ensures
            r.id == self.id,
            r.kind == self.kind,
            r.shortname == self.shortname,
            r.naive_change == self.naive_change,
            r.outcomes@ == self.outcomes@,
            r.description == self.description,
            r.attractor_id == self.attractor_id,
    {
        let outcomes = self.outcomes.clone();
        assert(outcomes@ =~= self.outcomes@);
        Force {
            id: self.id.clone(),
            kind: self.kind,
            shortname: self.shortname.clone(),
            naive_change: self.naive_change.clone(),
            outcomes,
            description: self.description.clone(),
            attractor_id: self.attractor_id.clone(),
        }
    }
}

impl Force {
    /// A purpose force with no description and no attractor.
    pub fn purpose(id: &str, shortname: &str, naive_change: &str, outcomes: Vec<String>) -> (r: Force)
        ensures
            r.id@ == id@,
            r.kind == ForceKind::Purpose,
            r.shortname@ == shortname@,
            r.naive_change@ == naive_change@,
            r.outcomes@ == outcomes@,
            r.description@ == Seq::<char>::empty(),
            r.attractor_id@ == Seq::<char>::empty(),
    {
        Force {
            id: String::from_str(id),
            kind: ForceKind::Purpose,
            shortname: String::from_str(shortname),
            naive_change: String::from_str(naive_change),
            outcomes,
            description: String::new(),
            attractor_id: String::new(),
        }
    }

    /// A stressor force with no description and no attractor.
    pub fn stressor(id: &str, shortname: &str, naive_change: &str, outcomes: Vec<String>) -> (r: Force)
        ensures
            r.id@ == id@,
            r.kind == ForceKind::Stressor,
            r.shortname@ == shortname@,
            r.naive_change@ == naive_change@,
            r.outcomes@ == outcomes@,
            r.description@ == Seq::<char>::empty(),
            r.attractor_id@ == Seq::<char>::empty(),
    {
        Force {
            id: String::from_str(id),
            kind: ForceKind::Stressor,
            shortname: String::from_str(shortname),
            naive_change: String::from_str(naive_change),
            outcomes,
            description: String::new(),
            attractor_id: String::new(),
        }
    }
}

} // verus!
