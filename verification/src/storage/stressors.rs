//! Stressor records (`stressors.csv`).

use vstd::prelude::*;

use crate::storage::format::{csv_file, csv_file_bytes};
use crate::storage::{
    lemma_numbered_id_fresh, max_number, max_numbered, numbered, numbered_id, DuplicateId,
};
use crate::text::views;

verus! {

/// One row of `stressors.csv`.
#[derive(Debug)]
pub struct Stressor {
    pub id: String,
    pub shortname: String,
    pub description: String,
    pub attractor_id: String,
    pub naive_change: String,
    pub outcomes: String,
    pub components_affected: String,
}

impl Clone for Stressor {
    fn clone(&self) -> (r: Self)
        ensures
            r == *self,
    {
        Stressor {
            id: self.id.clone(),
            shortname: self.shortname.clone(),
            description: self.description.clone(),
            attractor_id: self.attractor_id.clone(),
            naive_change: self.naive_change.clone(),
            outcomes: self.outcomes.clone(),
            components_affected: self.components_affected.clone(),
        }
    }
}

/// The ids of the stressors.
pub open spec fn ids(stressors: Seq<Stressor>) -> Seq<Seq<char>> {
    stressors.map_values(|s: Stressor| s.id@)
}

/// The next free stressor id: `S-` and one more than the largest `S-`
/// number in use, in at least two digits. It is none of the current ids.
pub fn next_id(stressors: &[Stressor]) -> (r: String)
    requires
        max_number(ids(stressors@), "S-"@) < u32::MAX,
    ensures
        r@ == numbered_id("S-"@, (max_number(ids(stressors@), "S-"@) + 1) as nat),
        !ids(stressors@).contains(r@),
{
    let mut v: Vec<String> = Vec::new();
    let mut i: usize = 0;
    while i < stressors.len()
        invariant
            i <= stressors@.len(),
            views(v@) == ids(stressors@.take(i as int)),
        decreases stressors@.len() - i,
    {
        let ghost old_v = views(v@);
        v.push(stressors[i].id.clone());
        assert(views(v@) =~= old_v.push(stressors@[i as int].id@));
        i = i + 1;
        assert(ids(stressors@.take(i as int)) =~= ids(stressors@.take(i - 1)).push(stressors@[i - 1].id@));
    }
    assert(stressors@.take(stressors@.len() as int) =~= stressors@);
    let m = max_numbered(&v, "S-");
    proof {
        lemma_numbered_id_fresh(ids(stressors@), "S-"@, (m + 1) as u32);
    }
    numbered("S-", m + 1)
}

/// Ids stay distinct across appends: a table with distinct ids still has
/// distinct ids after `append` accepts a row (it accepts only fresh ids).
pub proof fn lemma_append_keeps_ids_distinct(rows: Seq<Stressor>, row: Stressor)
    requires
        ids(rows).no_duplicates(),
        !ids(rows).contains(row.id@),
    ensures
        ids(rows.push(row)).no_duplicates(),
{
    assert(ids(rows.push(row)) =~= ids(rows).push(row.id@));
    assert forall|a: int, b: int| 0 <= a < b < ids(rows.push(row)).len() implies ids(rows.push(row))[a]
        != ids(rows.push(row))[b] by {
        if b == rows.len() {
            assert(ids(rows)[a] == ids(rows.push(row))[a]);
        }
    }
}

/// Adds a stressor to the loaded table; refused when its id is taken.
pub fn append(rows: &mut Vec<Stressor>, stressor: Stressor) -> (r: Result<(), DuplicateId>)
    ensures
        r is Ok <==> !ids(old(rows)@).contains(stressor.id@),
        r is Ok ==> final(rows)@ == old(rows)@.push(stressor),
        r matches Err(e) ==> final(rows)@ == old(rows)@ && e.id@ == stressor.id@ && e.record@
            == "stressor"@,
        r matches Err(e) ==> e.text() == "stressor"@ + " id '"@ + stressor.id@ + "' already exists"@,
{
    let mut i: usize = 0;
    while i < rows.len()
        invariant
            i <= rows@.len(),
            rows@ == old(rows)@,
            forall|k: int| 0 <= k < i ==> rows@[k].id@ != stressor.id@,
        decreases rows@.len() - i,
    {
        if rows[i].id == stressor.id {
            assert(ids(rows@)[i as int] == stressor.id@);
            return Err(DuplicateId { record: String::from_str("stressor"), id: stressor.id });
        }
        i = i + 1;
    }
    assert(!ids(old(rows)@).contains(stressor.id@)) by {
        assert forall|k: int| 0 <= k < ids(rows@).len() implies ids(rows@)[k] != stressor.id@ by {
            assert(ids(rows@)[k] == rows@[k].id@);
        }
    }
    rows.push(stressor);
    Ok(())
}

/// Records a new stressor under the next free id (see `next_id`) and
/// returns that id; the id is fresh, so the append always succeeds.
pub fn add(
    rows: &mut Vec<Stressor>,
    description: String,
    attractor_id: String,
    naive_change: String,
    outcomes: String,
    components: String,
) -> (id: String)
    requires
        max_number(ids(old(rows)@), "S-"@) < u32::MAX,
    ensures
        id@ == numbered_id("S-"@, (max_number(ids(old(rows)@), "S-"@) + 1) as nat),
        final(rows)@.len() == old(rows)@.len() + 1,
        final(rows)@.drop_last() == old(rows)@,
        final(rows)@.last().id@ == id@,
        final(rows)@.last().shortname@ == Seq::<char>::empty(),
        final(rows)@.last().description == description,
        final(rows)@.last().attractor_id == attractor_id,
        final(rows)@.last().naive_change == naive_change,
        final(rows)@.last().outcomes == outcomes,
        final(rows)@.last().components_affected == components,
{
    let id = next_id(rows.as_slice());
    let s = Stressor {
        id: id.clone(),
        shortname: String::new(),
        description,
        attractor_id,
        naive_change,
        outcomes,
        components_affected: components,
    };
    let r = append(rows, s);
    assert(r is Ok);
    assert(rows@.drop_last() =~= old(rows)@);
    id
}

/// The header line of `stressors.csv`.
pub open spec fn header() -> Seq<char> {
    "id,description,naive_change,outcomes,components_affected,attractor_id"@
}

/// A stressor as a CSV record, in header order.
pub open spec fn record(s: Stressor) -> Seq<Seq<char>> {
    seq![s.id@, s.description@, s.naive_change@, s.outcomes@, s.components_affected@, s.attractor_id@]
}

/// The contents of `stressors.csv` for the rows: the header, then one
/// record per row (always `Some`).
pub fn to_csv(rows: &[Stressor]) -> (r: Option<Vec<u8>>)
    ensures
        r is Some,
        r matches Some(bytes) ==> bytes@ == csv_file(header(), rows@.map_values(|s: Stressor| record(s))),
{
    let mut records: Vec<Vec<String>> = Vec::new();
    let mut i: usize = 0;
    while i < rows.len()
        invariant
            i <= rows@.len(),
            records.deep_view() == rows@.take(i as int).map_values(|s: Stressor| record(s)),
        decreases rows@.len() - i,
    {
        let s = &rows[i];
        let mut rec: Vec<String> = Vec::new();
        rec.push(s.id.clone());
        rec.push(s.description.clone());
        rec.push(s.naive_change.clone());
        rec.push(s.outcomes.clone());
        rec.push(s.components_affected.clone());
        rec.push(s.attractor_id.clone());
        assert(rec.deep_view() =~= record(rows@[i as int]));
        let ghost old_r = records.deep_view();
        records.push(rec);
        assert(records.deep_view() =~= old_r.push(record(rows@[i as int])));
        i = i + 1;
        assert(records.deep_view() =~= rows@.take(i as int).map_values(|s: Stressor| record(s)));
    }
    assert(rows@.take(rows@.len() as int) =~= rows@);
    csv_file_bytes("id,description,naive_change,outcomes,components_affected,attractor_id", &records)
}

} // verus!
