//! Storage records: what the CSV files under `residual/` hold, and the pure
//! steps of reading and writing them.

pub mod attractors;
pub mod config;
pub mod format;
pub mod front_matter;
pub mod integrity;
pub mod iterations;
pub mod personas;
pub mod purposes;
pub mod residues;
pub mod stressors;
pub mod terminology;

use vstd::prelude::*;

use crate::text::{
    chars_of, string_of,
    decimal_pad2, decimal_pad2_string, has_prefix, lemma_parse_decimal_pad2, parse_u32,
    parse_u32_str, strip_prefix_str, views,
};

verus! {

/// The number an id carries after `prefix` (`S-07` → 7 for `S-`), when it
/// has one.
pub open spec fn id_number(id: Seq<char>, prefix: Seq<char>) -> Option<u32> {
    if has_prefix(id, prefix) {
        parse_u32(id.skip(prefix.len() as int))
    } else {
        None
    }
}

/// The largest number carried by the ids (0 when none carries one).
pub open spec fn max_number(ids: Seq<Seq<char>>, prefix: Seq<char>) -> u32
    decreases ids.len(),
{
    if ids.len() == 0 {
        0
    } else {
        let m = max_number(ids.drop_last(), prefix);
        match id_number(ids.last(), prefix) {
            Some(k) => if k > m {
                k
            } else {
                m
            },
            None => m,
        }
    }
}

/// The id `prefix` followed by `n` in at least two digits.
pub open spec fn numbered_id(prefix: Seq<char>, n: nat) -> Seq<char> {
    prefix + decimal_pad2(n)
}

pub proof fn lemma_max_number_bounds(ids: Seq<Seq<char>>, prefix: Seq<char>)
    ensures
        forall|k: int|
            0 <= k < ids.len() ==> (#[trigger] id_number(ids[k], prefix) matches Some(v) ==> v
                <= max_number(ids, prefix)),
    decreases ids.len(),
{
    if ids.len() > 0 {
        lemma_max_number_bounds(ids.drop_last(), prefix);
        assert forall|k: int|
            0 <= k < ids.len() implies (#[trigger] id_number(ids[k], prefix) matches Some(v) ==> v
            <= max_number(ids, prefix)) by {
            if k < ids.len() - 1 {
                assert(ids[k] == ids.drop_last()[k]);
            }
        }
    }
}

/// An id numbered above every id's number is none of the ids.
pub proof fn lemma_numbered_id_fresh(ids: Seq<Seq<char>>, prefix: Seq<char>, n: u32)
    requires
        n > max_number(ids, prefix),
    ensures
        !ids.contains(numbered_id(prefix, n as nat)),
{
    lemma_max_number_bounds(ids, prefix);
    let fresh = numbered_id(prefix, n as nat);
    if ids.contains(fresh) {
        let k = choose|k: int| 0 <= k < ids.len() && ids[k] == fresh;
        assert(fresh.subrange(0, prefix.len() as int) =~= prefix);
        assert(fresh.skip(prefix.len() as int) =~= decimal_pad2(n as nat));
        lemma_parse_decimal_pad2(n);
        assert(id_number(ids[k], prefix) == Some(n));
    }
}

/// `max_number` over strings.
pub fn max_numbered(ids: &Vec<String>, prefix: &str) -> (r: u32)
    ensures
        r == max_number(views(ids@), prefix@),
{
    let mut m: u32 = 0;
    let mut i: usize = 0;
    assert(views(ids@).take(0) =~= Seq::<Seq<char>>::empty());
    while i < ids.len()
        invariant
            i <= ids@.len(),
            m == max_number(views(ids@).take(i as int), prefix@),
        decreases ids@.len() - i,
    {
        assert(views(ids@).take(i + 1).drop_last() =~= views(ids@).take(i as int));
        assert(views(ids@).take(i + 1).last() == ids@[i as int]@);
        match strip_prefix_str(ids[i].as_str(), prefix) {
            Some(rest) => {
                match parse_u32_str(rest.as_str()) {
                    Some(k) => {
                        if k > m {
                            m = k;
                        }
                    },
                    None => {},
                }
            },
            None => {},
        }
        i = i + 1;
    }
    assert(views(ids@).take(ids@.len() as int) =~= views(ids@));
    m
}

/// `prefix` followed by `n` in at least two digits (`format!("{prefix}{n:02}")`).
pub fn numbered(prefix: &str, n: u32) -> (r: String)
    ensures
        r@ == numbered_id(prefix@, n as nat),
{
    let mut r = String::from_str(prefix);
    let digits = decimal_pad2_string(n as u64);
    r.append(digits.as_str());
    r
}

/// How many characters of a state `list` shows.
pub open spec fn state_width() -> nat {
    40
}

/// A state as `list` shows it: up to forty characters, cut ones marked
/// with `…`.
pub open spec fn truncated(s: Seq<char>) -> Seq<char> {
    if s.len() <= state_width() {
        s
    } else {
        s.take(state_width() as int).push('…')
    }
}

/// `truncated` on a string.
pub fn truncate_state(s: &str) -> (r: String)
    ensures
        r@ == truncated(s@),
{
    let cs = chars_of(s);
    if cs.len() <= 40 {
        return String::from_str(s);
    }
    let mut out: Vec<char> = Vec::new();
    let mut i: usize = 0;
    while i < 40
        invariant
            i <= 40 < cs@.len(),
            out@ == cs@.take(i as int),
        decreases 40 - i,
    {
        out.push(cs[i]);
        i = i + 1;
        assert(out@ =~= cs@.take(i as int));
    }
    out.push('…');
    string_of(out.as_slice())
}

/// An id that already exists in a table that needs unique ids.
#[derive(Debug)]
pub struct DuplicateId {
    /// What kind of record (`stressor`, `purpose`).
    pub record: String,
    pub id: String,
}

impl DuplicateId {
    /// `<record> id '<id>' already exists`.
    pub open spec fn text(&self) -> Seq<char> {
        self.record@ + " id '"@ + self.id@ + "' already exists"@
    }

    /// The error's message (see `text`).
    pub fn message(&self) -> (r: String)
        ensures
            r@ == self.text(),
    {
        let mut r = self.record.clone();
        r.append(" id '");
        r.append(self.id.as_str());
        r.append("' already exists");
        r
    }
}

} // verus!
