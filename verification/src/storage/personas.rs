//! Personas: the people whose concerns stressors are walked against.

use vstd::prelude::*;

use crate::storage::format::nonempty_pieces;
use crate::storage::front_matter::{field_of, field_value, header_lines, header_of, until_close};
use crate::text::{
    decimal, decimal_string, is_ws, join, join_strings, joined_lines, lemma_lines_of_joined,
    lemma_split_join, lemma_trim_keeps_first, lemma_trim_of_trimmed, lines, plain_line, split, split_str, trim, trim_str, views,
};

verus! {

/// One persona (`personas/<name>.md`).
#[derive(Debug)]
pub struct Persona {
    pub name: String,
    pub role: String,
    pub concerns: String,
    pub desires: String,
    pub stressor_ids: Vec<String>,
}

/// The fewest personas a stressor walk, FMEA or ATAM wants.
pub open spec fn min_personas() -> nat {
    2
}

/// Fewer personas than the analytical lenses want.
#[derive(Debug, Clone, Copy, PartialEq, Eq, Structural)]
pub struct PersonaShortfall {
    pub found: usize,
}

impl PersonaShortfall {
    /// `at least 2 personas are needed, found <n>`.
    pub fn message(&self) -> (r: String)
        ensures
            r@ == "at least 2 personas are needed, found "@ + decimal(self.found as nat),
    {
        let mut r = String::from_str("at least 2 personas are needed, found ");
        let d = decimal_string(self.found as u64);
        r.append(d.as_str());
        r
    }
}

/// Persona adequacy: at least two personas.
pub fn check_personas_adequacy(names: &[String]) -> (r: Result<(), PersonaShortfall>)
    ensures
        r is Ok <==> names@.len() >= min_personas(),
        r matches Err(e) ==> e.found == names@.len(),
{
    if names.len() >= 2 {
        Ok(())
    } else {
        Err(PersonaShortfall { found: names.len() })
    }
}

/// The lines of a persona's file: a header with its fields, stressor ids
/// joined by `,`.
pub open spec fn persona_lines(p: Persona) -> Seq<Seq<char>> {
    seq![
        "---"@,
        "name: "@ + p.name@,
        "role: "@ + p.role@,
        "concerns: "@ + p.concerns@,
        "desires: "@ + p.desires@,
        "stressor_ids: "@ + join(views(p.stressor_ids@), ","@),
        "---"@,
    ]
}

/// The file text of a persona.
pub open spec fn persona_text(p: Persona) -> Seq<char> {
    joined_lines(persona_lines(p))
}

fn push_line(out: &mut String, a: &str, b: &str)
    ensures
        final(out)@ == old(out)@ + (a@ + b@) + seq!['\n'],
{
    let ghost start = out@;
    out.append(a);
    out.append(b);
    out.append("\n");
    proof {
        reveal_strlit("\n");
    }
    assert(out@ =~= start + (a@ + b@) + seq!['\n']);
}

proof fn lemma_joined_step(ls: Seq<Seq<char>>, k: int)
    requires
        0 <= k < ls.len(),
    ensures
        joined_lines(ls.take(k + 1)) == joined_lines(ls.take(k)) + ls[k] + seq!['\n'],
{
    assert(ls.take(k + 1).drop_last() =~= ls.take(k));
    assert(ls.take(k + 1).last() == ls[k]);
}

/// `personas/<name>.md` for a persona.
pub fn render(p: &Persona) -> (r: String)
    ensures
        r@ == persona_text(*p),
{
    let ghost ls = persona_lines(*p);
    let ids = join_strings(p.stressor_ids.as_slice(), ",");
    let mut r = String::new();
    proof {
        reveal_strlit("---");
        reveal_strlit("");
        reveal_strlit(",");
        assert(ls.take(0) =~= Seq::<Seq<char>>::empty());
        assert(r@ =~= joined_lines(ls.take(0)));
    }
    push_line(&mut r, "---", "");
    proof {
        lemma_joined_step(ls, 0);
        assert("---"@ + ""@ =~= ls[0]);
    }
    push_line(&mut r, "name: ", p.name.as_str());
    proof {
        lemma_joined_step(ls, 1);
    }
    push_line(&mut r, "role: ", p.role.as_str());
    proof {
        lemma_joined_step(ls, 2);
    }
    push_line(&mut r, "concerns: ", p.concerns.as_str());
    proof {
        lemma_joined_step(ls, 3);
    }
    push_line(&mut r, "desires: ", p.desires.as_str());
    proof {
        lemma_joined_step(ls, 4);
    }
    push_line(&mut r, "stressor_ids: ", ids.as_str());
    proof {
        lemma_joined_step(ls, 5);
    }
    push_line(&mut r, "---", "");
    proof {
        lemma_joined_step(ls, 6);
        assert(ls.take(7) =~= ls);
    }
    r
}

/// A header field, or the empty text when it is missing.
pub open spec fn value_or_empty(ls: Seq<Seq<char>>, key: Seq<char>) -> Seq<char> {
    match field_value(ls, key) {
        Some(v) => v,
        None => Seq::<char>::empty(),
    }
}

/// The ids of a `stressor_ids` field: comma-separated, trimmed, blanks
/// dropped.
pub open spec fn id_list(v: Seq<char>) -> Seq<Seq<char>> {
    nonempty_pieces(split(v, ',').map_values(|p: Seq<char>| trim(p)))
}

/// The persona a file describes (name, role, concerns, desires, stressor
/// ids); none without a header or a `name` field.
pub open spec fn persona_of(c: Seq<char>) -> Option<(Seq<char>, Seq<char>, Seq<char>, Seq<char>, Seq<Seq<char>>)> {
    match header_lines(c) {
        None => None,
        Some(ls) => match field_value(ls, "name"@) {
            None => None,
            Some(name) => Some(
                (
                    name,
                    value_or_empty(ls, "role"@),
                    value_or_empty(ls, "concerns"@),
                    value_or_empty(ls, "desires"@),
                    id_list(value_or_empty(ls, "stressor_ids"@)),
                ),
            ),
        },
    }
}

fn value_or_empty_exec(ls: &Vec<String>, key: &str) -> (r: String)
    ensures
        r@ == value_or_empty(views(ls@), key@),
{
    match field_of(ls, key) {
        Some(v) => v,
        None => String::new(),
    }
}

fn id_list_exec(v: &str) -> (r: Vec<String>)
    ensures
        views(r@) == id_list(v@),
{
    let pieces = split_str(v, ',');
    let ghost tp = views(pieces@).map_values(|p: Seq<char>| trim(p));
    let mut r: Vec<String> = Vec::new();
    let mut k: usize = 0;
    while k < pieces.len()
        invariant
            k <= pieces@.len(),
            tp == views(pieces@).map_values(|p: Seq<char>| trim(p)),
            views(pieces@) == split(v@, ','),
            views(r@) == nonempty_pieces(tp.take(k as int)),
        decreases pieces@.len() - k,
    {
        let t = trim_str(pieces[k].as_str());
        assert(tp.take(k + 1).drop_last() =~= tp.take(k as int));
        assert(tp.take(k + 1).last() == t@);
        if t.as_str().unicode_len() > 0 {
            let ghost before = views(r@);
            r.push(t);
            assert(views(r@) =~= before.push(tp[k as int]));
        }
        k = k + 1;
    }
    assert(tp.take(tp.len() as int) =~= tp);
    r
}

/// Reads a persona file (see `persona_of`).
pub fn parse(content: &str) -> (r: Option<Persona>)
    ensures
        r is None <==> persona_of(content@) is None,
        r matches Some(p) ==> persona_of(content@) == Some(
            (p.name@, p.role@, p.concerns@, p.desires@, views(p.stressor_ids@)),
        ),
{
    let ls = match header_of(content) {
        None => {
            return None;
        },
        Some(ls) => ls,
    };
    let name = match field_of(&ls, "name") {
        None => {
            return None;
        },
        Some(n) => n,
    };
    let role = value_or_empty_exec(&ls, "role");
    let concerns = value_or_empty_exec(&ls, "concerns");
    let desires = value_or_empty_exec(&ls, "desires");
    let ids_text = value_or_empty_exec(&ls, "stressor_ids");
    let stressor_ids = id_list_exec(ids_text.as_str());
    Some(Persona { name, role, concerns, desires, stressor_ids })
}

/// A persona field a file line holds as it is: no `\n`, no `\r`.
pub open spec fn plain_field(s: Seq<char>) -> bool {
    forall|j: int| 0 <= j < s.len() ==> s[j] != '\n' && s[j] != '\r'
}

/// A stressor id that survives the `,`-joined list: a plain field, not
/// empty, without `,`, not starting or ending with white space.
pub open spec fn plain_id(s: Seq<char>) -> bool {
    &&& plain_field(s)
    &&& s.len() > 0
    &&& forall|j: int| 0 <= j < s.len() ==> s[j] != ','
    &&& !is_ws(s[0])
    &&& !is_ws(s.last())
}

proof fn lemma_join_plain(pieces: Seq<Seq<char>>)
    requires
        forall|k: int| 0 <= k < pieces.len() ==> #[trigger] plain_field(pieces[k]),
    ensures
        plain_field(join(pieces, ","@)),
    decreases pieces.len(),
{
    reveal_strlit(",");
    if pieces.len() == 1 {
        assert(plain_field(pieces[0]));
    } else if pieces.len() > 1 {
        let front = pieces.drop_last();
        assert forall|k: int| 0 <= k < front.len() implies #[trigger] plain_field(front[k]) by {
            assert(front[k] == pieces[k]);
        }
        lemma_join_plain(front);
        assert(plain_field(pieces[pieces.len() - 1]));
        let j = join(pieces, ","@);
        assert forall|i: int| 0 <= i < j.len() implies j[i] != '\n' && j[i] != '\r' by {
            let x = join(front, ","@);
            if i < x.len() {
                assert(j[i] == x[i]);
            } else if i == x.len() {
                assert(j[i] == ',');
            } else {
                assert(j[i] == pieces.last()[i - x.len() - 1]);
            }
        }
    }
}

proof fn lemma_labelled_plain(label: Seq<char>, v: Seq<char>)
    requires
        plain_field(label),
        label.len() > 0,
        label.last() == ' ',
        plain_field(v),
    ensures
        plain_line(label + v),
{
    let l = label + v;
    assert forall|j: int| 0 <= j < l.len() implies l[j] != '\n' by {
        if j < label.len() {
            assert(l[j] == label[j]);
        } else {
            assert(l[j] == v[j - label.len()]);
        }
    }
    if v.len() > 0 {
        assert(l.last() == v[v.len() - 1]);
    } else {
        assert(l.last() == label.last());
    }
}

proof fn lemma_nonempty_pieces_keep(s: Seq<Seq<char>>)
    requires
        forall|k: int| 0 <= k < s.len() ==> #[trigger] s[k].len() > 0,
    ensures
        nonempty_pieces(s) == s,
    decreases s.len(),
{
    if s.len() > 0 {
        let front = s.drop_last();
        assert forall|k: int| 0 <= k < front.len() implies #[trigger] front[k].len() > 0 by {
            assert(front[k] == s[k]);
        }
        lemma_nonempty_pieces_keep(front);
        assert(s[s.len() - 1].len() > 0);
        assert(front.push(s.last()) =~= s);
    }
}

proof fn lemma_ids_round_trip(ids: Seq<Seq<char>>)
    requires
        forall|k: int| 0 <= k < ids.len() ==> #[trigger] plain_id(ids[k]),
    ensures
        id_list(join(ids, ","@)) == ids,
{
    reveal_strlit(",");
    assert(","@ =~= seq![',']);
    if ids.len() == 0 {
        assert(split(Seq::<char>::empty(), ',') =~= seq![Seq::<char>::empty()]);
        assert(trim(Seq::<char>::empty()) =~= Seq::<char>::empty());
        assert(split(Seq::<char>::empty(), ',').map_values(|p: Seq<char>| trim(p)) =~= seq![
            Seq::<char>::empty(),
        ]);
        let one = seq![Seq::<char>::empty()];
        assert(one.drop_last() =~= Seq::<Seq<char>>::empty());
        assert(nonempty_pieces(Seq::<Seq<char>>::empty()) == Seq::<Seq<char>>::empty());
        assert(nonempty_pieces(one) =~= Seq::<Seq<char>>::empty());
    } else {
        assert forall|k: int, j: int| 0 <= k < ids.len() && 0 <= j < ids[k].len() implies #[trigger] ids[k][j]
            != ',' by {
            assert(plain_id(ids[k]));
        }
        lemma_split_join(ids, ',');
        assert forall|k: int| 0 <= k < ids.len() implies trim(#[trigger] ids[k]) == ids[k] by {
            assert(plain_id(ids[k]));
            lemma_trim_of_trimmed(ids[k]);
        }
        let trimmed = split(join(ids, ","@), ',').map_values(|p: Seq<char>| trim(p));
        assert(trimmed =~= ids);
        assert forall|k: int| 0 <= k < ids.len() implies #[trigger] ids[k].len() > 0 by {
            assert(plain_id(ids[k]));
        }
        lemma_nonempty_pieces_keep(ids);
    }
}

proof fn lemma_not_close(l: Seq<char>)
    requires
        l.len() > 0,
        !is_ws(l[0]),
        l[0] != '-',
    ensures
        trim(l) != "---"@,
{
    reveal_strlit("---");
    lemma_trim_keeps_first(l);
}

/// What `render` writes, `parse` reads back: the persona file of a persona
/// whose fields hold no line break (and whose stressor ids are non-empty,
/// without `,` and without surrounding white space) parses to the same
/// persona.
pub proof fn lemma_persona_round_trip(p: Persona)
    requires
        plain_field(p.name@),
        plain_field(p.role@),
        plain_field(p.concerns@),
        plain_field(p.desires@),
        forall|k: int| 0 <= k < p.stressor_ids@.len() ==> #[trigger] plain_id(p.stressor_ids@[k]@),
    ensures
        persona_of(persona_text(p)) == Some(
            (p.name@, p.role@, p.concerns@, p.desires@, views(p.stressor_ids@)),
        ),
{
    reveal_strlit("---");
    reveal_strlit("name: ");
    reveal_strlit("role: ");
    reveal_strlit("concerns: ");
    reveal_strlit("desires: ");
    reveal_strlit("stressor_ids: ");
    reveal_strlit("name");
    reveal_strlit("role");
    reveal_strlit("concerns");
    reveal_strlit("desires");
    reveal_strlit("stressor_ids");
    reveal_strlit(": ");
    let ids = views(p.stressor_ids@);
    assert forall|k: int| 0 <= k < ids.len() implies #[trigger] plain_id(ids[k]) by {
        assert(ids[k] == p.stressor_ids@[k]@);
    }
    assert forall|k: int| 0 <= k < ids.len() implies #[trigger] plain_field(ids[k]) by {
        assert(plain_id(ids[k]));
    }
    lemma_join_plain(ids);
    let ls = persona_lines(p);
    lemma_labelled_plain("name: "@, p.name@);
    lemma_labelled_plain("role: "@, p.role@);
    lemma_labelled_plain("concerns: "@, p.concerns@);
    lemma_labelled_plain("desires: "@, p.desires@);
    lemma_labelled_plain("stressor_ids: "@, join(ids, ","@));
    assert(plain_line("---"@));
    assert forall|k: int| 0 <= k < ls.len() implies #[trigger] plain_line(ls[k]) by {}
    lemma_lines_of_joined(ls);
    assert(lines(persona_text(p)) == ls);
    assert(trim("---"@) == "---"@) by {
        lemma_trim_of_trimmed("---"@);
    }
    let d = ls.drop_first();
    lemma_not_close(d[0]);
    lemma_not_close(d[1]);
    lemma_not_close(d[2]);
    lemma_not_close(d[3]);
    lemma_not_close(d[4]);
    reveal_with_fuel(until_close, 7);
    let h = seq![d[0], d[1], d[2], d[3], d[4]];
    assert(d.drop_first().drop_first().drop_first().drop_first().drop_first().drop_first() =~= Seq::<
        Seq<char>,
    >::empty());
    assert(until_close(d) =~= h);
    assert(header_lines(persona_text(p)) == Some(h));
    reveal_with_fuel(field_value, 6);
    assert(("name"@ + ": "@) =~= "name: "@);
    assert(("role"@ + ": "@) =~= "role: "@);
    assert(("concerns"@ + ": "@) =~= "concerns: "@);
    assert(("desires"@ + ": "@) =~= "desires: "@);
    assert(("stressor_ids"@ + ": "@) =~= "stressor_ids: "@);
    assert(h[0].subrange(0, 6) =~= "name: "@);
    assert(h[0].skip(6) =~= p.name@);
    assert(field_value(h, "name"@) == Some(p.name@));
    assert(h[1].subrange(0, 6) =~= "role: "@);
    assert(h[1].skip(6) =~= p.role@);
    assert(h.drop_first() =~= seq![d[1], d[2], d[3], d[4]]);
    assert(field_value(h, "role"@) == Some(p.role@));
    assert(h[2].subrange(0, 10) =~= "concerns: "@);
    assert(h[2].skip(10) =~= p.concerns@);
    assert(field_value(h, "concerns"@) == Some(p.concerns@));
    assert(h[3].subrange(0, 9) =~= "desires: "@);
    assert(h[3].skip(9) =~= p.desires@);
    assert(field_value(h, "desires"@) == Some(p.desires@));
    assert(h[4].subrange(0, 14) =~= "stressor_ids: "@);
    assert(h[4].skip(14) =~= join(ids, ","@));
    assert(field_value(h, "stressor_ids"@) == Some(join(ids, ","@)));
    lemma_ids_round_trip(ids);
}

} // verus!
