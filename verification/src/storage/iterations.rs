//! Iteration records (`iterations/<n>.md`): a front-matter header and an
//! empty body.

use vstd::prelude::*;

use crate::nkp::order::{in_key_order, is_perm, key_view, key_views, sorted_order, KeyView, SortKey};
use crate::storage::front_matter::{field_of, field_value, header_lines, header_of};
use crate::storage::personas::value_or_empty;
use crate::text::{decimal, decimal_string, parse_u32, parse_u32_str, trim, trim_str, views};

verus! {

/// What an iteration file records.
#[derive(Debug)]
pub struct IterationMeta {
    pub n: usize,
    pub date: String,
    pub ri_score: String,
    pub n_val: String,
    pub k_val: String,
    pub p_val: String,
    pub notes: String,
}

impl Clone for IterationMeta {
    fn clone(&self) -> (r: Self)
        ensures
            r == *self,
    {
        IterationMeta {
            n: self.n,
            date: self.date.clone(),
            ri_score: self.ri_score.clone(),
            n_val: self.n_val.clone(),
            k_val: self.k_val.clone(),
            p_val: self.p_val.clone(),
            notes: self.notes.clone(),
        }
    }
}

/// The number after the highest iteration number in use (1 when there is
/// none).
pub open spec fn next_number(ns: Seq<usize>) -> int
    decreases ns.len(),
{
    if ns.len() == 0 {
        1
    } else {
        let rest = next_number(ns.drop_last());
        if ns.last() + 1 > rest {
            ns.last() + 1
        } else {
            rest
        }
    }
}

/// The next iteration number: one more than the highest in use.
pub fn next_n(ns: &[usize]) -> (r: usize)
    requires
        forall|i: int| 0 <= i < ns@.len() ==> #[trigger] ns@[i] < usize::MAX,
    ensures
        r == next_number(ns@),
{
    let mut r: usize = 1;
    let mut i: usize = 0;
    assert(ns@.take(0) =~= Seq::<usize>::empty());
    while i < ns.len()
        invariant
            i <= ns@.len(),
            forall|j: int| 0 <= j < ns@.len() ==> #[trigger] ns@[j] < usize::MAX,
            r == next_number(ns@.take(i as int)),
        decreases ns@.len() - i,
    {
        assert(ns@.take(i + 1).drop_last() =~= ns@.take(i as int));
        assert(ns@.take(i + 1).last() == ns@[i as int]);
        if ns[i] + 1 > r {
            r = ns[i] + 1;
        }
        i = i + 1;
    }
    assert(ns@.take(ns@.len() as int) =~= ns@);
    r
}

/// The file text of an iteration.
pub open spec fn iteration_text(m: IterationMeta) -> Seq<char> {
    "---\nn: "@ + decimal(m.n as nat) + "\ndate: "@ + m.date@ + "\nri_score: "@ + m.ri_score@
        + "\nn_val: "@ + m.n_val@ + "\nk_val: "@ + m.k_val@ + "\np_val: "@ + m.p_val@ + "\nnotes: "@
        + m.notes@ + "\n---\n"@
}

/// `iterations/<n>.md` for an iteration.
pub fn render(m: &IterationMeta) -> (r: String)
    ensures
        r@ == iteration_text(*m),
{
    let mut r = String::from_str("---\nn: ");
    let d = decimal_string(m.n as u64);
    r.append(d.as_str());
    r.append("\ndate: ");
    r.append(m.date.as_str());
    r.append("\nri_score: ");
    r.append(m.ri_score.as_str());
    r.append("\nn_val: ");
    r.append(m.n_val.as_str());
    r.append("\nk_val: ");
    r.append(m.k_val.as_str());
    r.append("\np_val: ");
    r.append(m.p_val.as_str());
    r.append("\nnotes: ");
    r.append(m.notes.as_str());
    r.append("\n---\n");
    r
}

/// The iteration a file describes; none without a header or without an
/// `n` field holding a `u32`.
pub open spec fn iteration_of(c: Seq<char>) -> Option<(u32, Seq<Seq<char>>)> {
    match header_lines(c) {
        None => None,
        Some(ls) => match field_value(ls, "n"@) {
            None => None,
            Some(v) => match parse_u32(trim(v)) {
                None => None,
                Some(n) => Some(
                    (
                        n,
                        seq![
                            value_or_empty(ls, "date"@),
                            value_or_empty(ls, "ri_score"@),
                            value_or_empty(ls, "n_val"@),
                            value_or_empty(ls, "k_val"@),
                            value_or_empty(ls, "p_val"@),
                            value_or_empty(ls, "notes"@),
                        ],
                    ),
                ),
            },
        },
    }
}

fn value_or_empty_of(ls: &Vec<String>, key: &str) -> (r: String)
    ensures
        r@ == value_or_empty(views(ls@), key@),
{
    match field_of(ls, key) {
        Some(v) => v,
        None => String::new(),
    }
}

/// Reads an iteration file (see `iteration_of`).
pub fn parse(content: &str) -> (r: Option<IterationMeta>)
    ensures
        r is None <==> iteration_of(content@) is None,
        r matches Some(m) ==> iteration_of(content@) matches Some(found) && m.n == found.0 && found.1
            == seq![m.date@, m.ri_score@, m.n_val@, m.k_val@, m.p_val@, m.notes@],
{
    let ls = match header_of(content) {
        None => {
            return None;
        },
        Some(ls) => ls,
    };
    let nv = match field_of(&ls, "n") {
        None => {
            return None;
        },
        Some(v) => v,
    };
    let n = match parse_u32_str(trim_str(nv.as_str()).as_str()) {
        None => {
            return None;
        },
        Some(n) => n,
    };
    let m = IterationMeta {
        n: n as usize,
        date: value_or_empty_of(&ls, "date"),
        ri_score: value_or_empty_of(&ls, "ri_score"),
        n_val: value_or_empty_of(&ls, "n_val"),
        k_val: value_or_empty_of(&ls, "k_val"),
        p_val: value_or_empty_of(&ls, "p_val"),
        notes: value_or_empty_of(&ls, "notes"),
    };
    assert(seq![m.date@, m.ri_score@, m.n_val@, m.k_val@, m.p_val@, m.notes@] =~= iteration_of(
        content@,
    ).unwrap().1);
    Some(m)
}

/// The sort key of an iteration: lower numbers first (`sorted_order` puts
/// larger counts first, so the count is `usize::MAX - n`).
pub open spec fn number_key(m: IterationMeta) -> KeyView {
    (false, (usize::MAX - m.n) as usize, Seq::<char>::empty(), Seq::<char>::empty())
}

/// The iterations in ascending number, ties kept in order.
pub fn by_number(metas: Vec<IterationMeta>) -> (r: Vec<IterationMeta>)
    ensures
        exists|p: Seq<usize>|
            {
                &&& is_perm(p, metas@.len() as int)
                &&& in_key_order(metas@.map_values(|m: IterationMeta| number_key(m)), p)
                &&& r@ == p.map_values(|i: usize| metas@[i as int])
            },
{
    let mut keys: Vec<SortKey> = Vec::new();
    let mut i: usize = 0;
    while i < metas.len()
        invariant
            i <= metas@.len(),
            key_views(keys@) == metas@.take(i as int).map_values(|m: IterationMeta| number_key(m)),
        decreases metas@.len() - i,
    {
        let k = SortKey { first: false, count: usize::MAX - metas[i].n, major: Vec::new(), minor: Vec::new() };
        assert(key_view(k) == number_key(metas@[i as int]));
        let ghost before = key_views(keys@);
        keys.push(k);
        assert(key_views(keys@) =~= before.push(key_view(k)));
        i = i + 1;
        assert(metas@.take(i as int).map_values(|m: IterationMeta| number_key(m)) =~= metas@.take(i - 1).map_values(
            |m: IterationMeta| number_key(m),
        ).push(number_key(metas@[i - 1])));
    }
    assert(metas@.take(metas@.len() as int) =~= metas@);
    let p = sorted_order(&keys);
    let mut out: Vec<IterationMeta> = Vec::new();
    let mut k: usize = 0;
    while k < p.len()
        invariant
            k <= p@.len(),
            is_perm(p@, metas@.len() as int),
            out@ == p@.take(k as int).map_values(|i: usize| metas@[i as int]),
        decreases p@.len() - k,
    {
        let m = metas[p[k]].clone();
        let ghost before = out@;
        out.push(m);
        k = k + 1;
        assert(out@ =~= p@.take(k as int).map_values(|i: usize| metas@[i as int]));
    }
    assert(p@.take(p@.len() as int) =~= p@);
    assert(key_views(keys@) =~= metas@.map_values(|m: IterationMeta| number_key(m)));
    out
}

} // verus!
