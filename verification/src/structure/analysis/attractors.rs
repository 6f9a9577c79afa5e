//! An attractor: a stable system state, described by the state it holds
//! under pressure and the state it falls into.

use vstd::prelude::*;

use crate::storage::{lemma_numbered_id_fresh, max_number, max_numbered, numbered, numbered_id};
use crate::text::views;

verus! {

#[derive(Debug, PartialEq, Eq)]
pub struct Attractor {
    pub id: String,
    pub name: String,
    pub description: String,
    pub positive_state: String,
    pub negative_state: String,
}

impl Attractor {
    /// An attractor with no description.
    pub fn new(id: &str, name: &str, positive_state: &str, negative_state: &str) -> (r: Attractor)
        ensures
            r.id@ == id@,
            r.name@ == name@,
            r.description@ == Seq::<char>::empty(),
            r.positive_state@ == positive_state@,
            r.negative_state@ == negative_state@,
    {
        Attractor {
            id: String::from_str(id),
            name: String::from_str(name),
            description: String::new(),
            positive_state: String::from_str(positive_state),
            negative_state: String::from_str(negative_state),
        }
    }
}

/// The ids of the attractors.
pub open spec fn ids(attractors: Seq<Attractor>) -> Seq<Seq<char>> {
    attractors.map_values(|a: Attractor| a.id@)
}

/// The next free attractor id: `A-` and one more than the largest `A-`
/// number in use, in at least two digits. It is none of the current ids.
pub fn next_id(attractors: &[Attractor]) -> (r: String)
    requires
        max_number(ids(attractors@), "A-"@) < u32::MAX,
    ensures
        r@ == numbered_id("A-"@, (max_number(ids(attractors@), "A-"@) + 1) as nat),
        !ids(attractors@).contains(r@),
{
    let mut v: Vec<String> = Vec::new();
    let mut i: usize = 0;
    while i < attractors.len()
        invariant
            i <= attractors@.len(),
            views(v@) == ids(attractors@.take(i as int)),
        decreases attractors@.len() - i,
    {
        let ghost old_v = views(v@);
        v.push(attractors[i].id.clone());
        assert(views(v@) =~= old_v.push(attractors@[i as int].id@));
        i = i + 1;
        assert(ids(attractors@.take(i as int)) =~= ids(attractors@.take(i - 1)).push(
            attractors@[i - 1].id@,
        ));
    }
    assert(attractors@.take(attractors@.len() as int) =~= attractors@);
    let m = max_numbered(&v, "A-");
    proof {
        lemma_numbered_id_fresh(ids(attractors@), "A-"@, (m + 1) as u32);
    }
    numbered("A-", m + 1)
}

} // verus!
