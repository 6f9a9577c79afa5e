//! Residue records: ids and the one-row-per-(force, component) rule.

use vstd::prelude::*;

use crate::storage::purposes::Purpose;
use crate::storage::stressors::Stressor;
use crate::storage::{max_number, max_numbered, numbered, numbered_id};
use crate::structure::analysis::force::Force;
use crate::structure::analysis::residues::Residue;
use crate::text::views;

verus! {

pub open spec fn ids(residues: Seq<Residue>) -> Seq<Seq<char>> {
    residues.map_values(|r: Residue| r.id@)
}

/// `R-` and the largest `R-` number in use, in at least two digits (the
/// number is not incremented).
pub fn next_id(residues: &[Residue]) -> (r: String)
    ensures
        r@ == numbered_id("R-"@, max_number(ids(residues@), "R-"@) as nat),
{
    let mut v: Vec<String> = Vec::new();
    let mut i: usize = 0;
    while i < residues.len()
        invariant
            i <= residues@.len(),
            views(v@) == ids(residues@.take(i as int)),
        decreases residues@.len() - i,
    {
        let ghost old_v = views(v@);
        v.push(residues[i].id.clone());
        assert(views(v@) =~= old_v.push(residues@[i as int].id@));
        i = i + 1;
        assert(ids(residues@.take(i as int)) =~= ids(residues@.take(i - 1)).push(residues@[i - 1].id@));
    }
    assert(residues@.take(residues@.len() as int) =~= residues@);
    let m = max_numbered(&v, "R-");
    numbered("R-", m)
}

/// The row mapping the same force to the same component.
pub open spec fn same_mapping(a: Residue, b: Residue) -> bool {
    a.force_id@ == b.force_id@ && a.component_id@ == b.component_id@
}

/// Some row maps the residue's force to its component.
pub open spec fn has_mapping(rows: Seq<Residue>, residue: Residue) -> bool {
    exists|k: int| 0 <= k < rows.len() && same_mapping(rows[k], residue)
}

/// The first row with the residue's mapping.
pub open spec fn first_mapping(rows: Seq<Residue>, residue: Residue) -> int {
    choose|k: int|
        0 <= k < rows.len() && same_mapping(rows[k], residue) && forall|t: int|
            0 <= t < k ==> !same_mapping(rows[t], residue)
}

/// The table after recording `residue`: the first row with the same force
/// and component takes its status and notes (keeping its id); otherwise
/// the residue is added at the end.
pub open spec fn upserted(rows: Seq<Residue>, residue: Residue) -> Seq<Residue> {
    if has_mapping(rows, residue) {
        let k = first_mapping(rows, residue);
        rows.update(
            k,
            Residue {
                id: rows[k].id,
                force_id: rows[k].force_id,
                component_id: rows[k].component_id,
                status: residue.status,
                notes: residue.notes,
            },
        )
    } else {
        rows.push(residue)
    }
}

/// No two rows map the same force to the same component.
pub open spec fn distinct_mappings(rows: Seq<Residue>) -> bool {
    forall|a: int, b: int| 0 <= a < b < rows.len() ==> !same_mapping(rows[a], rows[b])
}

/// Recording keeps one row per (force, component): a table without repeated
/// mappings has none after `append`, and it holds the residue's mapping.
pub proof fn lemma_upsert_keeps_mappings_distinct(rows: Seq<Residue>, residue: Residue)
    requires
        distinct_mappings(rows),
    ensures
        distinct_mappings(upserted(rows, residue)),
        has_mapping(upserted(rows, residue), residue),
{
    let u = upserted(rows, residue);
    if has_mapping(rows, residue) {
        let w = choose|k: int| 0 <= k < rows.len() && same_mapping(rows[k], residue);
        lemma_first_mapping_exists(rows, residue, w);
        let k = first_mapping(rows, residue);
        assert(same_mapping(u[k], residue));
        assert forall|a: int| 0 <= a < u.len() implies #[trigger] u[a].force_id == rows[a].force_id
            && u[a].component_id == rows[a].component_id by {
            if a == k {
            } else {
                assert(u[a] == rows[a]);
            }
        }
        assert forall|a: int, b: int| 0 <= a < b < u.len() implies !same_mapping(u[a], u[b]) by {
            assert(u[a].force_id == rows[a].force_id && u[a].component_id == rows[a].component_id);
            assert(u[b].force_id == rows[b].force_id && u[b].component_id == rows[b].component_id);
            assert(!same_mapping(rows[a], rows[b]));
        }
    } else {
        assert forall|a: int, b: int| 0 <= a < b < u.len() implies !same_mapping(u[a], u[b]) by {
            if b == rows.len() {
                assert(u[a] == rows[a]);
                assert(!same_mapping(rows[a], residue));
            } else {
                assert(u[a] == rows[a]);
                assert(u[b] == rows[b]);
            }
        }
        assert(same_mapping(u[rows.len() as int], residue));
    }
}

/// Where some row has the mapping, there is a first one.
proof fn lemma_first_mapping_exists(rows: Seq<Residue>, residue: Residue, w: int)
    requires
        0 <= w < rows.len(),
        same_mapping(rows[w], residue),
    ensures
        ({
            let k = first_mapping(rows, residue);
            0 <= k < rows.len() && same_mapping(rows[k], residue) && forall|t: int|
                0 <= t < k ==> !same_mapping(rows[t], residue)
        }),
    decreases w,
{
    if exists|t: int| 0 <= t < w && same_mapping(rows[t], residue) {
        let t = choose|t: int| 0 <= t < w && same_mapping(rows[t], residue);
        lemma_first_mapping_exists(rows, residue, t);
    } else {
        assert(0 <= w < rows.len() && same_mapping(rows[w], residue) && forall|t: int|
            0 <= t < w ==> !same_mapping(rows[t], residue));
    }
}

/// Records a residue (see `upserted`).
pub fn append(rows: &mut Vec<Residue>, residue: Residue)
    ensures
        final(rows)@ == upserted(old(rows)@, residue),
        !has_mapping(old(rows)@, residue) ==> final(rows)@ == old(rows)@.push(residue),
        has_mapping(old(rows)@, residue) ==> final(rows)@.len() == old(rows)@.len() && exists|k: int|
            {
                &&& 0 <= k < old(rows)@.len()
                &&& same_mapping(#[trigger] old(rows)@[k], residue)
                &&& forall|t: int| 0 <= t < k ==> !same_mapping(old(rows)@[t], residue)
                &&& final(rows)@[k].id == old(rows)@[k].id
                &&& final(rows)@[k].force_id == old(rows)@[k].force_id
                &&& final(rows)@[k].component_id == old(rows)@[k].component_id
                &&& final(rows)@[k].status == residue.status
                &&& final(rows)@[k].notes == residue.notes
                &&& forall|t: int| 0 <= t < old(rows)@.len() && t != k ==> final(rows)@[t] == old(rows)@[t]
            },
        distinct_mappings(old(rows)@) ==> distinct_mappings(final(rows)@),
{
    let mut i: usize = 0;
    while i < rows.len()
        invariant
            i <= rows@.len(),
            rows@ == old(rows)@,
            forall|t: int| 0 <= t < i ==> !same_mapping(rows@[t], residue),
        decreases rows@.len() - i,
    {
        if rows[i].force_id == residue.force_id && rows[i].component_id == residue.component_id {
            let ghost k = i as int;
            assert(same_mapping(old(rows)@[k], residue));
            let old_row = rows[i].clone();
            let updated = Residue {
                id: old_row.id,
                force_id: old_row.force_id,
                component_id: old_row.component_id,
                status: residue.status,
                notes: residue.notes,
            };
            rows.set(i, updated);
            proof {
                lemma_first_mapping_exists(old(rows)@, residue, k);
                let c = first_mapping(old(rows)@, residue);
                if c < k {
                    assert(!same_mapping(old(rows)@[c], residue));
                } else if c > k {
                    assert(!same_mapping(old(rows)@[k], residue));
                }
                assert(c == k);
                assert(rows@ =~= upserted(old(rows)@, residue));
                if distinct_mappings(old(rows)@) {
                    lemma_upsert_keeps_mappings_distinct(old(rows)@, residue);
                }
                assert(same_mapping(old(rows)@[k], residue));
            }
            return;
        }
        i = i + 1;
    }
    assert(!has_mapping(old(rows)@, residue));
    proof {
        if distinct_mappings(old(rows)@) {
            lemma_upsert_keeps_mappings_distinct(old(rows)@, residue);
        }
    }
    rows.push(residue);
}

/// Whether a force with this id exists among the forces, stressors or
/// purposes.
pub fn force_exists(forces: &[Force], stressors: &[Stressor], purposes: &[Purpose], force_id: &String) -> (r:
    bool)
    ensures
        r == (exists|k: int| 0 <= k < forces@.len() && #[trigger] forces@[k].id@ == force_id@)
            || (exists|k: int| 0 <= k < stressors@.len() && #[trigger] stressors@[k].id@ == force_id@)
            || (exists|k: int| 0 <= k < purposes@.len() && #[trigger] purposes@[k].id@ == force_id@),
{
    let mut i: usize = 0;
    while i < forces.len()
        invariant
            i <= forces@.len(),
            forall|k: int| 0 <= k < i ==> #[trigger] forces@[k].id@ != force_id@,
        decreases forces@.len() - i,
    {
        if forces[i].id == *force_id {
            return true;
        }
        i = i + 1;
    }
    let mut j: usize = 0;
    while j < stressors.len()
        invariant
            j <= stressors@.len(),
            forall|k: int| 0 <= k < forces@.len() ==> #[trigger] forces@[k].id@ != force_id@,
            forall|k: int| 0 <= k < j ==> #[trigger] stressors@[k].id@ != force_id@,
        decreases stressors@.len() - j,
    {
        if stressors[j].id == *force_id {
            return true;
        }
        j = j + 1;
    }
    let mut p: usize = 0;
    while p < purposes.len()
        invariant
            p <= purposes@.len(),
            forall|k: int| 0 <= k < forces@.len() ==> #[trigger] forces@[k].id@ != force_id@,
            forall|k: int| 0 <= k < stressors@.len() ==> #[trigger] stressors@[k].id@ != force_id@,
            forall|k: int| 0 <= k < p ==> #[trigger] purposes@[k].id@ != force_id@,
        decreases purposes@.len() - p,
    {
        if purposes[p].id == *force_id {
            return true;
        }
        p = p + 1;
    }
    false
}

} // verus!
