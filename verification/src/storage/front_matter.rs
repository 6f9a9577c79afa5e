//! Markdown files with a front-matter header: a `---` line, `key: value`
//! lines, a closing `---` line. Personas and iterations are stored so.

use vstd::prelude::*;

use crate::text::{has_prefix, lines, lines_of, str_eq, strip_prefix_str, trim, trim_str, views};

verus! {

/// The lines of the header, before the closing `---` (all remaining lines
/// when it is never closed); none when the text does not open a header.
pub open spec fn header_lines(c: Seq<char>) -> Option<Seq<Seq<char>>> {
    let ls = lines(c);
    if ls.len() == 0 || trim(ls[0]) != "---"@ {
        None
    } else {
        Some(until_close(ls.drop_first()))
    }
}

/// The lines before the first one that trims to `---`.
pub open spec fn until_close(ls: Seq<Seq<char>>) -> Seq<Seq<char>>
    decreases ls.len(),
{
    if ls.len() == 0 {
        ls
    } else if trim(ls[0]) == "---"@ {
        Seq::<Seq<char>>::empty()
    } else {
        seq![ls[0]] + until_close(ls.drop_first())
    }
}

/// The value of `key`: the rest of the first line that begins `key: `.
pub open spec fn field_value(ls: Seq<Seq<char>>, key: Seq<char>) -> Option<Seq<char>>
    decreases ls.len(),
{
    if ls.len() == 0 {
        None
    } else if has_prefix(ls[0], key + ": "@) {
        Some(ls[0].skip(key.len() + 2int))
    } else {
        field_value(ls.drop_first(), key)
    }
}

/// The header lines of a document (see `header_lines`).
pub fn header_of(content: &str) -> (r: Option<Vec<String>>)
    ensures
        r is None <==> header_lines(content@) is None,
        r matches Some(v) ==> header_lines(content@) == Some(views(v@)),
{
    let ls = lines_of(content);
    let ghost lv = views(ls@);
    if ls.len() == 0 || !str_eq(trim_str(ls[0].as_str()).as_str(), "---") {
        return None;
    }
    assert(lv[0] == ls@[0]@);
    let mut out: Vec<String> = Vec::new();
    let mut i: usize = 1;
    assert(lv.drop_first() =~= lv.skip(1));
    while i < ls.len()
        invariant
            1 <= i <= ls@.len(),
            lv == views(ls@),
            lv == lines(content@),
            lv.len() > 0,
            trim(lv[0]) == "---"@,
            until_close(lv.drop_first()) == views(out@) + until_close(lv.skip(i as int)),
        decreases ls@.len() - i,
    {
        assert(lv.skip(i as int)[0] == ls@[i as int]@);
        assert(lv.skip(i as int).drop_first() =~= lv.skip(i + 1));
        if str_eq(trim_str(ls[i].as_str()).as_str(), "---") {
            assert(views(out@) + Seq::<Seq<char>>::empty() =~= views(out@));
            return Some(out);
        }
        let ghost before = views(out@);
        out.push(ls[i].clone());
        assert(views(out@) =~= before.push(ls@[i as int]@));
        assert(before + until_close(lv.skip(i as int)) =~= views(out@) + until_close(lv.skip(i + 1)));
        i = i + 1;
    }
    assert(lv.skip(i as int) =~= Seq::<Seq<char>>::empty());
    assert(views(out@) + Seq::<Seq<char>>::empty() =~= views(out@));
    Some(out)
}

/// `field_value` over header lines.
pub fn field_of(ls: &Vec<String>, key: &str) -> (r: Option<String>)
    ensures
        r is None <==> field_value(views(ls@), key@) is None,
        r matches Some(v) ==> field_value(views(ls@), key@) == Some(v@),
{
    let mut prefix = String::from_str(key);
    prefix.append(": ");
    let ghost lv = views(ls@);
    let mut i: usize = 0;
    assert(lv.skip(0) =~= lv);
    while i < ls.len()
        invariant
            i <= ls@.len(),
            lv == views(ls@),
            prefix@ == key@ + ": "@,
            field_value(lv, key@) == field_value(lv.skip(i as int), key@),
        decreases ls@.len() - i,
    {
        assert(lv.skip(i as int)[0] == ls@[i as int]@);
        assert(lv.skip(i as int).drop_first() =~= lv.skip(i + 1));
        match strip_prefix_str(ls[i].as_str(), prefix.as_str()) {
            Some(rest) => {
                proof {
                    reveal_strlit(": ");
                }
                return Some(rest);
            },
            None => {},
        }
        i = i + 1;
    }
    assert(lv.skip(i as int) =~= Seq::<Seq<char>>::empty());
    None
}

} // verus!
