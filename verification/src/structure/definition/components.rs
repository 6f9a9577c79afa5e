//! The component registry (`components.csv`): names, status and the
//! architecture set each component belongs to.

use vstd::prelude::*;

use crate::text::str_eq;

verus! {

#[derive(Debug, Clone, PartialEq, Eq)]
pub struct Component {
    pub name: String,
    pub description: String,
    pub status: String,
    pub architecture_set: String,
}

/// The components of one architecture set, in registry order.
pub fn filter_architecture_set<'a>(components: &'a [Component], set: &str) -> (r: Vec<&'a Component>)
    ensures
        r@ == components@.filter(|c: Component| c.architecture_set@ == set@).map_values(|c: Component| &c),
{
    let ghost keep = |c: Component| c.architecture_set@ == set@;
    let mut out: Vec<&'a Component> = Vec::new();
    let mut i: usize = 0;
    proof {
        reveal_with_fuel(Seq::filter, 1);
    }
    assert(components@.take(0) =~= Seq::<Component>::empty());
    assert(out@ =~= components@.take(0).filter(keep).map_values(|c: Component| &c));
    while i < components.len()
        invariant
            i <= components@.len(),
            keep == (|c: Component| c.architecture_set@ == set@),
            out@ == components@.take(i as int).filter(keep).map_values(|c: Component| &c),
        decreases components@.len() - i,
    {
        proof {
            reveal_with_fuel(Seq::filter, 1);
            assert(components@.take(i + 1).drop_last() =~= components@.take(i as int));
            assert(components@.take(i + 1).last() == components@[i as int]);
        }
        let ghost before = components@.take(i as int).filter(keep);
        if str_eq(components[i].architecture_set.as_str(), set) {
            out.push(&components[i]);
            assert(out@ =~= before.push(components@[i as int]).map_values(|c: Component| &c));
        }
        i = i + 1;
    }
    assert(components@.take(components@.len() as int) =~= components@);
    out
}

} // verus!
