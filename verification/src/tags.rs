//! Code tags: `// @residue: R-03` and `// @stressor: S-07, S-12` comments
//! that tie source lines to ledger ids.

use vstd::prelude::*;

use crate::storage::format::nonempty_pieces;
use crate::text::{chars_of, contains_string, split, split_str, string_of, trim, trim_str, views};

verus! {

/// What a tag refers to.
#[derive(Debug, Clone, Copy, PartialEq, Eq, Structural)]
pub enum TagKind {
    Residue,
    Stressor,
}

/// A tag found in a file.
#[derive(Debug)]
pub struct Tag {
    pub file: String,
    /// 1-based line number.
    pub line: usize,
    pub kind: TagKind,
    pub ids: Vec<String>,
}

/// The first position at or after `i` where `m` occurs in `t`.
pub open spec fn index_from(t: Seq<char>, m: Seq<char>, i: int) -> Option<int>
    decreases t.len() + 1 - i,
{
    if i < 0 || i + m.len() > t.len() {
        None
    } else if t.subrange(i, i + m.len()) == m {
        Some(i)
    } else {
        index_from(t, m, i + 1)
    }
}

/// The text after the first occurrence of `m` in `t`.
pub open spec fn after_marker(t: Seq<char>, m: Seq<char>) -> Option<Seq<char>> {
    match index_from(t, m, 0) {
        Some(k) => Some(t.skip(k + m.len())),
        None => None,
    }
}

/// The ids listed after a marker: comma-separated, trimmed, blanks dropped.
pub open spec fn tag_ids(rest: Seq<char>) -> Seq<Seq<char>> {
    nonempty_pieces(split(rest, ',').map_values(|p: Seq<char>| trim(p)))
}

/// The tag a line carries: a `@residue:` marker is looked for first, then
/// `@stressor:`.
pub open spec fn tag_of_line(t: Seq<char>) -> Option<(TagKind, Seq<Seq<char>>)> {
    match after_marker(t, "@residue:"@) {
        Some(rest) => Some((TagKind::Residue, tag_ids(rest))),
        None => match after_marker(t, "@stressor:"@) {
            Some(rest) => Some((TagKind::Stressor, tag_ids(rest))),
            None => None,
        },
    }
}

fn after_marker_exec(t: &str, m: &str) -> (r: Option<String>)
    ensures
        r is None <==> after_marker(t@, m@) is None,
        r matches Some(rest) ==> after_marker(t@, m@) == Some(rest@),
{
    let tc = chars_of(t);
    let mc = chars_of(m);
    if mc.len() > tc.len() {
        return None;
    }
    let n = tc.len();
    let last = n - mc.len();
    let mut i: usize = 0;
    while i <= last
        invariant
            tc@ == t@,
            mc@ == m@,
            n == tc@.len(),
            last + mc@.len() == tc@.len(),
            index_from(t@, m@, 0) == index_from(t@, m@, i as int),
        decreases last + 1 - i,
    {
        let mut k: usize = 0;
        let mut same = true;
        while k < mc.len()
            invariant
                i <= last,
                n == tc@.len(),
                last + mc@.len() == tc@.len(),
                k <= mc@.len(),
                same <==> (forall|j: int| 0 <= j < k ==> tc@[i + j] == mc@[j]),
            decreases mc@.len() - k,
        {
            if tc[i + k] != mc[k] {
                same = false;
            }
            k = k + 1;
        }
        if same {
            assert(tc@.subrange(i as int, i + mc@.len()) =~= mc@);
            let rest = string_of(tc.as_slice().split_at(i + mc.len()).1);
            assert(tc@.skip(i + mc@.len()) =~= tc@.subrange((i + mc@.len()) as int, tc@.len() as int));
            return Some(rest);
        } else {
            assert(tc@.subrange(i as int, i + mc@.len()) != mc@) by {
                let j = choose|j: int| 0 <= j < mc@.len() && tc@[i + j] != mc@[j];
                assert(tc@.subrange(i as int, i + mc@.len())[j] == tc@[i + j]);
            }
        }
        if i == last {
            assert(index_from(t@, m@, i + 1) is None);
            return None;
        }
        i = i + 1;
    }
    None
}

fn ids_of(rest: &str) -> (r: Vec<String>)
    ensures
        views(r@) == tag_ids(rest@),
{
    let pieces = split_str(rest, ',');
    let ghost tp = views(pieces@).map_values(|p: Seq<char>| trim(p));
    let mut r: Vec<String> = Vec::new();
    let mut k: usize = 0;
    while k < pieces.len()
        invariant
            k <= pieces@.len(),
            tp == views(pieces@).map_values(|p: Seq<char>| trim(p)),
            views(pieces@) == split(rest@, ','),
            views(r@) == nonempty_pieces(tp.take(k as int)),
        decreases pieces@.len() - k,
    {
        let t = trim_str(pieces[k].as_str());
        assert(tp.take(k + 1).drop_last() =~= tp.take(k as int));
        assert(tp.take(k + 1).last() == t@);
        if t.as_str().unicode_len() > 0 {
            let ghost before = views(r@);
            r.push(t);
            assert(views(r@) =~= before.push(tp[k as int]));
        }
        k = k + 1;
    }
    assert(tp.take(tp.len() as int) =~= tp);
    r
}

/// The tag on line `line` of `file`, if the line carries one.
pub fn tag_in_line(file: &str, line: usize, text: &str) -> (r: Option<Tag>)
    ensures
        r is None <==> tag_of_line(text@) is None,
        r matches Some(tag) ==> tag_of_line(text@) == Some((tag.kind, views(tag.ids@)))
            && tag.file@ == file@ && tag.line == line,
{
    match after_marker_exec(text, "@residue:") {
        Some(rest) => {
            let ids = ids_of(rest.as_str());
            Some(Tag { file: String::from_str(file), line, kind: TagKind::Residue, ids })
        },
        None => match after_marker_exec(text, "@stressor:") {
            Some(rest) => {
                let ids = ids_of(rest.as_str());
                Some(Tag { file: String::from_str(file), line, kind: TagKind::Stressor, ids })
            },
            None => None,
        },
    }
}

/// Every id the tags name, in order.
pub open spec fn tagged_ids(tags: Seq<Tag>) -> Seq<Seq<char>> {
    tags.flat_map(|t: Tag| views(t.ids@))
}

/// The tagged ids that name no recorded id (dangling tags), in order.
pub fn dangling_ids(tags: &[Tag], known: &Vec<String>) -> (r: Vec<String>)
    ensures
        views(r@) == tagged_ids(tags@).filter(|id: Seq<char>| !views(known@).contains(id)),
{
    let ghost f = |t: Tag| views(t.ids@);
    let ghost p = |id: Seq<char>| !views(known@).contains(id);
    let mut r: Vec<String> = Vec::new();
    let mut i: usize = 0;
    assert(tags@.take(0).flat_map(f) =~= Seq::<Seq<char>>::empty());
    assert(Seq::<Seq<char>>::empty().filter(p) =~= Seq::<Seq<char>>::empty());
    while i < tags.len()
        invariant
            i <= tags@.len(),
            f == (|t: Tag| views(t.ids@)),
            p == (|id: Seq<char>| !views(known@).contains(id)),
            views(r@) == tags@.take(i as int).flat_map(f).filter(p),
        decreases tags@.len() - i,
    {
        let ghost base = tags@.take(i as int).flat_map(f);
        let ids = &tags[i].ids;
        let mut j: usize = 0;
        assert(base + views(ids@).take(0) =~= base);
        while j < ids.len()
            invariant
                j <= ids@.len(),
                p == (|id: Seq<char>| !views(known@).contains(id)),
                views(r@) == (base + views(ids@).take(j as int)).filter(p),
            decreases ids@.len() - j,
        {
            let ghost pre = base + views(ids@).take(j as int);
            assert(base + views(ids@).take(j + 1) =~= pre.push(ids@[j as int]@));
            proof {
                pre.lemma_filter_push(ids@[j as int]@, p);
            }
            if !contains_string(known, &ids[j]) {
                let ghost before = views(r@);
                r.push(ids[j].clone());
                assert(views(r@) =~= before.push(ids@[j as int]@));
            }
            j = j + 1;
        }
        proof {
            assert(views(ids@).take(ids@.len() as int) =~= views(ids@));
            assert(tags@.take(i + 1) =~= tags@.take(i as int).push(tags@[i as int]));
            tags@.take(i as int).lemma_flat_map_push(f, tags@[i as int]);
        }
        i = i + 1;
    }
    assert(tags@.take(tags@.len() as int) =~= tags@);
    r
}

} // verus!
