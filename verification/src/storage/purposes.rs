//! Purpose records (`purposes.csv`).

use vstd::prelude::*;

use crate::storage::format::{csv_file, csv_file_bytes};
use crate::storage::{
    lemma_numbered_id_fresh, max_number, max_numbered, numbered, numbered_id, DuplicateId,
};
use crate::text::views;

verus! {

/// One row of `purposes.csv`.
#[derive(Debug)]
pub struct Purpose {
    pub id: String,
    pub shortname: String,
    pub description: String,
    pub attractor_id: String,
    pub naive_change: String,
    pub outcomes: String,
    pub components: String,
}

impl Clone for Purpose {
    fn clone(&self) -> (r: Self)
        ensures
            r == *self,
    {
        Purpose {
            id: self.id.clone(),
            shortname: self.shortname.clone(),
            description: self.description.clone(),
            attractor_id: self.attractor_id.clone(),
            naive_change: self.naive_change.clone(),
            outcomes: self.outcomes.clone(),
            components: self.components.clone(),
        }
    }
}

/// The ids of the purposes.
pub open spec fn ids(purposes: Seq<Purpose>) -> Seq<Seq<char>> {
    purposes.map_values(|p: Purpose| p.id@)
}

/// The next free purpose id: `P-` and one more than the largest `P-` number
/// in use, in at least two digits. It is none of the current ids.
pub fn next_id(purposes: &[Purpose]) -> (r: String)
    requires
        max_number(ids(purposes@), "P-"@) < u32::MAX,
    ensures
        r@ == numbered_id("P-"@, (max_number(ids(purposes@), "P-"@) + 1) as nat),
        !ids(purposes@).contains(r@),
{
    let mut v: Vec<String> = Vec::new();
    let mut i: usize = 0;
    while i < purposes.len()
        invariant
            i <= purposes@.len(),
            views(v@) == ids(purposes@.take(i as int)),
        decreases purposes@.len() - i,
    {
        let ghost old_v = views(v@);
        v.push(purposes[i].id.clone());
        assert(views(v@) =~= old_v.push(purposes@[i as int].id@));
        i = i + 1;
        assert(ids(purposes@.take(i as int)) =~= ids(purposes@.take(i - 1)).push(purposes@[i - 1].id@));
    }
    assert(purposes@.take(purposes@.len() as int) =~= purposes@);
    let m = max_numbered(&v, "P-");
    proof {
        lemma_numbered_id_fresh(ids(purposes@), "P-"@, (m + 1) as u32);
    }
    numbered("P-", m + 1)
}

/// Ids stay distinct across appends: a table with distinct ids still has
/// distinct ids after `append` accepts a row (it accepts only fresh ids).
pub proof fn lemma_append_keeps_ids_distinct(rows: Seq<Purpose>, row: Purpose)
    requires
        ids(rows).no_duplicates(),
        !ids(rows).contains(row.id@),
    ensures
        ids(rows.push(row)).no_duplicates(),
{
    assert(ids(rows.push(row)) =~= ids(rows).push(row.id@));
    assert forall|a: int, b: int| 0 <= a < b < ids(rows.push(row)).len() implies ids(rows.push(row))[a]
        != ids(rows.push(row))[b] by {
        if b == rows.len() {
            assert(ids(rows)[a] == ids(rows.push(row))[a]);
        }
    }
}

/// Adds a purpose to the loaded table; refused when its id is taken.
pub fn append(rows: &mut Vec<Purpose>, purpose: Purpose) -> (r: Result<(), DuplicateId>)
    ensures
        r is Ok <==> !ids(old(rows)@).contains(purpose.id@),
        r is Ok ==> final(rows)@ == old(rows)@.push(purpose),
        r matches Err(e) ==> final(rows)@ == old(rows)@ && e.id@ == purpose.id@ && e.record@
            == "purpose"@,
        r matches Err(e) ==> e.text() == "purpose"@ + " id '"@ + purpose.id@ + "' already exists"@,
{
    let mut i: usize = 0;
    while i < rows.len()
        invariant
            i <= rows@.len(),
            rows@ == old(rows)@,
            forall|k: int| 0 <= k < i ==> rows@[k].id@ != purpose.id@,
        decreases rows@.len() - i,
    {
        if rows[i].id == purpose.id {
            assert(ids(rows@)[i as int] == purpose.id@);
            return Err(DuplicateId { record: String::from_str("purpose"), id: purpose.id });
        }
        i = i + 1;
    }
    assert(!ids(old(rows)@).contains(purpose.id@)) by {
        assert forall|k: int| 0 <= k < ids(rows@).len() implies ids(rows@)[k] != purpose.id@ by {
            assert(ids(rows@)[k] == rows@[k].id@);
        }
    }
    rows.push(purpose);
    Ok(())
}

/// Records a new purpose under the next free id (see `next_id`) and
/// returns that id; the id is fresh, so the append always succeeds.
pub fn add(
    rows: &mut Vec<Purpose>,
    description: String,
    attractor_id: String,
    naive_change: String,
    outcomes: String,
    components: String,
) -> (id: String)
    requires
        max_number(ids(old(rows)@), "P-"@) < u32::MAX,
    ensures
        id@ == numbered_id("P-"@, (max_number(ids(old(rows)@), "P-"@) + 1) as nat),
        final(rows)@.len() == old(rows)@.len() + 1,
        final(rows)@.drop_last() == old(rows)@,
        final(rows)@.last().id@ == id@,
        final(rows)@.last().shortname@ == Seq::<char>::empty(),
        final(rows)@.last().description == description,
        final(rows)@.last().attractor_id == attractor_id,
        final(rows)@.last().naive_change == naive_change,
        final(rows)@.last().outcomes == outcomes,
        final(rows)@.last().components == components,
{
    let id = next_id(rows.as_slice());
    let p = Purpose {
        id: id.clone(),
        shortname: String::new(),
        description,
        attractor_id,
        naive_change,
        outcomes,
        components,
    };
    let r = append(rows, p);
    assert(r is Ok);
    assert(rows@.drop_last() =~= old(rows)@);
    id
}

/// The header line of `purposes.csv`.
pub open spec fn header() -> Seq<char> {
    "id,shortname,description,naive_change,outcomes,components,attractor_id"@
}

/// A purpose as a CSV record, in header order.
pub open spec fn record(p: Purpose) -> Seq<Seq<char>> {
    seq![p.id@, p.shortname@, p.description@, p.naive_change@, p.outcomes@, p.components@, p.attractor_id@]
}

/// The contents of `purposes.csv` for the rows: the header, then one record
/// per row (always `Some`).
pub fn to_csv(rows: &[Purpose]) -> (r: Option<Vec<u8>>)
    ensures
        r is Some,
        r matches Some(bytes) ==> bytes@ == csv_file(header(), rows@.map_values(|p: Purpose| record(p))),
{
    let mut records: Vec<Vec<String>> = Vec::new();
    let mut i: usize = 0;
    while i < rows.len()
        invariant
            i <= rows@.len(),
            records.deep_view() == rows@.take(i as int).map_values(|p: Purpose| record(p)),
        decreases rows@.len() - i,
    {
        let p = &rows[i];
        let mut rec: Vec<String> = Vec::new();
        rec.push(p.id.clone());
        rec.push(p.shortname.clone());
        rec.push(p.description.clone());
        rec.push(p.naive_change.clone());
        rec.push(p.outcomes.clone());
        rec.push(p.components.clone());
        rec.push(p.attractor_id.clone());
        assert(rec.deep_view() =~= record(rows@[i as int]));
        let ghost old_r = records.deep_view();
        records.push(rec);
        assert(records.deep_view() =~= old_r.push(record(rows@[i as int])));
        i = i + 1;
        assert(records.deep_view() =~= rows@.take(i as int).map_values(|p: Purpose| record(p)));
    }
    assert(rows@.take(rows@.len() as int) =~= rows@);
    csv_file_bytes("id,shortname,description,naive_change,outcomes,components,attractor_id", &records)
}

} // verus!
