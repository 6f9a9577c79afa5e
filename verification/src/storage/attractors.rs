//! Attractor records as `attractors.csv` stores them (with a valence).

use vstd::prelude::*;

use crate::storage::{
    lemma_numbered_id_fresh, max_number, max_numbered, numbered, numbered_id, DuplicateId,
};
use vstd::utf8::is_ascii_chars;

use crate::text::{ascii_lowercase, lowercase, str_eq, to_lower, views};

verus! {

/// Whether the attractor is a state to reach or one to avoid.
#[derive(Debug, Clone, Copy, PartialEq, Eq, Structural)]
pub enum Valence {
    Positive,
    Negative,
}

/// A valence word that is neither `positive` nor `negative` (compared after
/// lower-casing); `word` is the lower-cased text.
#[derive(Debug)]
pub struct InvalidValence {
    pub word: String,
}

impl InvalidValence {
    /// `invalid valence '<word>': must be 'positive' or 'negative'`.
    pub fn message(&self) -> (r: String)
        ensures
            r@ == "invalid valence '"@ + self.word@ + "': must be 'positive' or 'negative'"@,
    {
        let mut r = String::from_str("invalid valence '");
        r.append(self.word.as_str());
        r.append("': must be 'positive' or 'negative'");
        r
    }
}

/// The valence a lower-cased word names.
pub open spec fn valence_of(word: Seq<char>) -> Option<Valence> {
    if word == "positive"@ {
        Some(Valence::Positive)
    } else if word == "negative"@ {
        Some(Valence::Negative)
    } else {
        None
    }
}

/// The name of a valence, as the CSV files and the CLI write it.
pub open spec fn valence_name(v: Valence) -> Seq<char> {
    match v {
        Valence::Positive => "positive"@,
        Valence::Negative => "negative"@,
    }
}

impl Valence {
    /// Reads a word that is already lower-cased.
    pub fn from_lowercase(word: &str) -> (r: Result<Valence, InvalidValence>)
        ensures
            r matches Ok(v) ==> valence_of(word@) == Some(v),
            r matches Err(e) ==> valence_of(word@) is None && e.word@ == word@,
            r is Ok <==> valence_of(word@) is Some,
    {
        if str_eq(word, "positive") {
            Ok(Valence::Positive)
        } else if str_eq(word, "negative") {
            Ok(Valence::Negative)
        } else {
            Err(InvalidValence { word: String::from_str(word) })
        }
    }

    /// Reads a valence in any letter case (`Positive`, `NEGATIVE`, ...). The
    /// name `as_str` gives a valence reads back as that valence.
    pub fn parse(s: &str) -> (r: Result<Valence, InvalidValence>)
        ensures
            r matches Ok(v) ==> valence_of(lowercase(s@)) == Some(v),
            r matches Err(e) ==> valence_of(lowercase(s@)) is None && e.word@ == lowercase(s@),
            r is Ok <==> valence_of(lowercase(s@)) is Some,
            s@ == valence_name(Valence::Positive) ==> r == Ok::<Valence, InvalidValence>(Valence::Positive),
            s@ == valence_name(Valence::Negative) ==> r == Ok::<Valence, InvalidValence>(Valence::Negative),
    {
        let lower = to_lower(s);
        proof {
            reveal_strlit("positive");
            reveal_strlit("negative");
            if s@ == "positive"@ {
                assert(is_ascii_chars(s@));
                assert(ascii_lowercase(s@) =~= s@);
            }
            if s@ == "negative"@ {
                assert("negative"@[0] != "positive"@[0]);
                assert(is_ascii_chars(s@));
                assert(ascii_lowercase(s@) =~= s@);
            }
        }
        Valence::from_lowercase(lower.as_str())
    }

    /// `positive` or `negative`.
    pub fn as_str(&self) -> (r: &'static str)
        ensures
            r@ == valence_name(*self),
    {
        match self {
            Valence::Positive => "positive",
            Valence::Negative => "negative",
        }
    }
}

impl std::str::FromStr for Valence {
    type Err = InvalidValence;

    fn from_str(s: &str) -> (r: Result<Valence, InvalidValence>)
        ensures
            r matches Ok(v) ==> valence_of(lowercase(s@)) == Some(v),
            r matches Err(e) ==> valence_of(lowercase(s@)) is None && e.word@ == lowercase(s@),
            r is Ok <==> valence_of(lowercase(s@)) is Some,
            s@ == valence_name(Valence::Positive) ==> r == Ok::<Valence, InvalidValence>(Valence::Positive),
            s@ == valence_name(Valence::Negative) ==> r == Ok::<Valence, InvalidValence>(Valence::Negative),
    {
        Valence::parse(s)
    }
}

/// One row of `attractors.csv`.
#[derive(Debug)]
pub struct Attractor {
    pub id: String,
    pub name: String,
    pub valence: Valence,
    pub description: String,
    pub phase_state: String,
}

impl Clone for Attractor {
    fn clone(&self) -> (r: Self)
        ensures
            r == *self,
    {
        Attractor {
            id: self.id.clone(),
            name: self.name.clone(),
            valence: self.valence,
            description: self.description.clone(),
            phase_state: self.phase_state.clone(),
        }
    }
}

/// The ids of the attractors.
pub open spec fn ids(attractors: Seq<Attractor>) -> Seq<Seq<char>> {
    attractors.map_values(|a: Attractor| a.id@)
}

/// The next free attractor id: `A-` and one more than the largest `A-`
/// number in use, in at least two digits. It is none of the current ids.
pub fn next_id(attractors: &[Attractor]) -> (r: String)
    requires
        max_number(ids(attractors@), "A-"@) < u32::MAX,
    ensures
        r@ == numbered_id("A-"@, (max_number(ids(attractors@), "A-"@) + 1) as nat),
        !ids(attractors@).contains(r@),
{
    let mut v: Vec<String> = Vec::new();
    let mut i: usize = 0;
    while i < attractors.len()
        invariant
            i <= attractors@.len(),
            views(v@) == ids(attractors@.take(i as int)),
        decreases attractors@.len() - i,
    {
        let ghost old_v = views(v@);
        v.push(attractors[i].id.clone());
        assert(views(v@) =~= old_v.push(attractors@[i as int].id@));
        i = i + 1;
        assert(ids(attractors@.take(i as int)) =~= ids(attractors@.take(i - 1)).push(
            attractors@[i - 1].id@,
        ));
    }
    assert(attractors@.take(attractors@.len() as int) =~= attractors@);
    let m = max_numbered(&v, "A-");
    proof {
        lemma_numbered_id_fresh(ids(attractors@), "A-"@, (m + 1) as u32);
    }
    numbered("A-", m + 1)
}

/// Whether an attractor with this id is recorded.
pub fn id_exists(attractors: &[Attractor], id: &str) -> (r: bool)
    ensures
        r == ids(attractors@).contains(id@),
{
    let mut i: usize = 0;
    while i < attractors.len()
        invariant
            i <= attractors@.len(),
            forall|k: int| 0 <= k < i ==> attractors@[k].id@ != id@,
        decreases attractors@.len() - i,
    {
        if str_eq(attractors[i].id.as_str(), id) {
            assert(ids(attractors@)[i as int] == id@);
            return true;
        }
        i = i + 1;
    }
    assert forall|k: int| 0 <= k < ids(attractors@).len() implies ids(attractors@)[k] != id@ by {
        assert(ids(attractors@)[k] == attractors@[k].id@);
    }
    false
}

/// Ids stay distinct across appends: a table with distinct ids still has
/// distinct ids after `append` accepts a row (it accepts only fresh ids).
pub proof fn lemma_append_keeps_ids_distinct(rows: Seq<Attractor>, row: Attractor)
    requires
        ids(rows).no_duplicates(),
        !ids(rows).contains(row.id@),
    ensures
        ids(rows.push(row)).no_duplicates(),
{
    assert(ids(rows.push(row)) =~= ids(rows).push(row.id@));
    assert forall|a: int, b: int| 0 <= a < b < ids(rows.push(row)).len() implies ids(rows.push(row))[a]
        != ids(rows.push(row))[b] by {
        if b == rows.len() {
            assert(ids(rows)[a] == ids(rows.push(row))[a]);
        }
    }
}

/// Adds an attractor to the loaded table; refused when its id is taken.
pub fn append(rows: &mut Vec<Attractor>, attractor: Attractor) -> (r: Result<(), DuplicateId>)
    ensures
        r is Ok <==> !ids(old(rows)@).contains(attractor.id@),
        r is Ok ==> final(rows)@ == old(rows)@.push(attractor),
        r matches Err(e) ==> final(rows)@ == old(rows)@ && e.id@ == attractor.id@ && e.record@
            == "attractor"@,
{
    if id_exists(rows.as_slice(), attractor.id.as_str()) {
        return Err(DuplicateId { record: String::from_str("attractor"), id: attractor.id });
    }
    rows.push(attractor);
    Ok(())
}

/// Records a new attractor under the next free id (see `next_id`) and
/// returns that id; refused, with the table unchanged, when the valence is
/// neither `positive` nor `negative` (in any letter case).
pub fn add(
    rows: &mut Vec<Attractor>,
    name: String,
    valence: &str,
    description: String,
    phase_state: String,
) -> (r: Result<String, InvalidValence>)
    requires
        max_number(ids(old(rows)@), "A-"@) < u32::MAX,
    ensures
        r is Ok <==> valence_of(lowercase(valence@)) is Some,
        r matches Err(e) ==> final(rows)@ == old(rows)@ && e.word@ == lowercase(valence@),
        r matches Ok(id) ==> {
            &&& id@ == numbered_id("A-"@, (max_number(ids(old(rows)@), "A-"@) + 1) as nat)
            &&& final(rows)@.len() == old(rows)@.len() + 1
            &&& final(rows)@.drop_last() == old(rows)@
            &&& final(rows)@.last().id@ == id@
            &&& final(rows)@.last().name == name
            &&& Some(final(rows)@.last().valence) == valence_of(lowercase(valence@))
            &&& final(rows)@.last().description == description
            &&& final(rows)@.last().phase_state == phase_state
        },
{
    let v = match Valence::parse(valence) {
        Ok(v) => v,
        Err(e) => {
            return Err(e);
        },
    };
    let id = next_id(rows.as_slice());
    let a = Attractor { id: id.clone(), name, valence: v, description, phase_state };
    let r = append(rows, a);
    assert(r is Ok);
    assert(rows@.drop_last() =~= old(rows)@);
    Ok(id)
}

} // verus!
