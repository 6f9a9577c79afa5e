//! NKP analysis: the stressor × component matrix and the name tables it
//! is labelled with.

pub mod criticality;
pub mod matrix;
pub mod order;
pub mod totals;

use vstd::prelude::*;

use crate::structure::analysis::attractors::Attractor;
use crate::storage::purposes::Purpose;
use crate::storage::stressors::Stressor;

verus! {

/// The value of the last entry whose key is `key` (a later insert of a key
/// replaces an earlier one).
pub open spec fn lookup(entries: Seq<(Seq<char>, Seq<char>)>, key: Seq<char>) -> Option<Seq<char>>
    decreases entries.len(),
{
    if entries.len() == 0 {
        None
    } else if entries.last().0 == key {
        Some(entries.last().1)
    } else {
        lookup(entries.drop_last(), key)
    }
}

/// A table from ids to names (force shortnames, attractor names).
#[derive(Debug)]
pub struct NameMap {
    entries: Vec<(String, String)>,
}

impl View for NameMap {
    type V = Seq<(Seq<char>, Seq<char>)>;

    closed spec fn view(&self) -> Seq<(Seq<char>, Seq<char>)> {
        self.entries.deep_view()
    }
}

impl NameMap {
    pub fn new() -> (r: NameMap)
        ensures
            r@ == Seq::<(Seq<char>, Seq<char>)>::empty(),
    {
        let r = NameMap { entries: Vec::new() };
        assert(r@ =~= Seq::<(Seq<char>, Seq<char>)>::empty());
        r
    }

    /// Sets the name of `key` (replacing an earlier one).
    pub fn insert(&mut self, key: String, value: String)
        ensures
            final(self)@ == old(self)@.push((key@, value@)),
    {
        self.entries.push((key, value));
        assert(self@ =~= old(self)@.push((key@, value@)));
    }

    /// The name of `key`, if it has one.
    pub fn get(&self, key: &String) -> (r: Option<String>)
        ensures
            r matches Some(v) ==> lookup(self@, key@) == Some(v@),
            r is None ==> lookup(self@, key@) is None,
    {
        let n = self.entries.len();
        let mut i: usize = n;
        assert(self@.take(n as int) =~= self@);
        while i > 0
            invariant
                i <= n == self@.len(),
                lookup(self@, key@) == lookup(self@.take(i as int), key@),
            decreases i,
        {
            let ghost pre = self@.take(i as int);
            assert(pre.drop_last() =~= self@.take(i - 1));
            assert(pre.last() == self@[i - 1]);
            assert(self@[i - 1] == (self.entries@[i - 1].0@, self.entries@[i - 1].1@));
            if self.entries[i - 1].0 == *key {
                return Some(self.entries[i - 1].1.clone());
            }
            i = i - 1;
        }
        None
    }

    /// The name of `key`, or `key` itself when it has none.
    pub fn get_or_key(&self, key: &String) -> (r: String)
        ensures
            r@ == (match lookup(self@, key@) {
                Some(v) => v,
                None => key@,
            }),
    {
        match self.get(key) {
            Some(v) => v,
            None => key.clone(),
        }
    }
}

/// Each stressor's id with its shortname, then each purpose's.
pub open spec fn shortname_entries(stressors: Seq<Stressor>, purposes: Seq<Purpose>) -> Seq<
    (Seq<char>, Seq<char>),
> {
    stressors.map_values(|s: Stressor| (s.id@, s.shortname@)) + purposes.map_values(
        |p: Purpose| (p.id@, p.shortname@),
    )
}

/// Force id → shortname, over stressors and purposes (a purpose's entry
/// replaces a stressor's with the same id).
pub fn force_shortnames(stressors: &[Stressor], purposes: &[Purpose]) -> (r: NameMap)
    ensures
        r@ == shortname_entries(stressors@, purposes@),
{
    let mut map = NameMap::new();
    let mut i: usize = 0;
    while i < stressors.len()
        invariant
            i <= stressors@.len(),
            map@ == stressors@.take(i as int).map_values(|s: Stressor| (s.id@, s.shortname@)),
        decreases stressors@.len() - i,
    {
        map.insert(stressors[i].id.clone(), stressors[i].shortname.clone());
        i = i + 1;
        assert(stressors@.take(i as int).map_values(|s: Stressor| (s.id@, s.shortname@))
            =~= stressors@.take(i - 1).map_values(|s: Stressor| (s.id@, s.shortname@)).push(
            (stressors@[i - 1].id@, stressors@[i - 1].shortname@),
        ));
    }
    assert(stressors@.take(stressors@.len() as int) =~= stressors@);
    let ghost head = map@;
    let mut j: usize = 0;
    while j < purposes.len()
        invariant
            j <= purposes@.len(),
            head == stressors@.map_values(|s: Stressor| (s.id@, s.shortname@)),
            map@ == head + purposes@.take(j as int).map_values(|p: Purpose| (p.id@, p.shortname@)),
        decreases purposes@.len() - j,
    {
        map.insert(purposes[j].id.clone(), purposes[j].shortname.clone());
        j = j + 1;
        assert(purposes@.take(j as int).map_values(|p: Purpose| (p.id@, p.shortname@))
            =~= purposes@.take(j - 1).map_values(|p: Purpose| (p.id@, p.shortname@)).push(
            (purposes@[j - 1].id@, purposes@[j - 1].shortname@),
        ));
        assert(map@ =~= head + purposes@.take(j as int).map_values(
            |p: Purpose| (p.id@, p.shortname@),
        ));
    }
    assert(purposes@.take(purposes@.len() as int) =~= purposes@);
    map
}

/// Attractor id → attractor name.
pub fn attractor_names(attractors: &[Attractor]) -> (r: NameMap)
    ensures
        r@ == attractors@.map_values(|a: Attractor| (a.id@, a.name@)),
{
    let mut map = NameMap::new();
    let mut i: usize = 0;
    while i < attractors.len()
        invariant
            i <= attractors@.len(),
            map@ == attractors@.take(i as int).map_values(|a: Attractor| (a.id@, a.name@)),
        decreases attractors@.len() - i,
    {
        map.insert(attractors[i].id.clone(), attractors[i].name.clone());
        i = i + 1;
        assert(attractors@.take(i as int).map_values(|a: Attractor| (a.id@, a.name@))
            =~= attractors@.take(i - 1).map_values(|a: Attractor| (a.id@, a.name@)).push(
            (attractors@[i - 1].id@, attractors@[i - 1].name@),
        ));
    }
    assert(attractors@.take(attractors@.len() as int) =~= attractors@);
    map
}

} // verus!
