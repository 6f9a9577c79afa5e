//! CSV encoding and decoding of records, through the `csv` crate, and the
//! `forces.csv`, `lexicon.csv` and `attractors.csv` tables. What
//! `forces_to_csv` and `attractors_v3_to_csv` write, `forces_from_csv` and
//! `attractors_v3_from_csv` read back (see their contracts).

use vstd::prelude::*;
use vstd::utf8::{encode_utf8, is_ascii_chars};

use crate::structure::analysis::attractors::Attractor as V3Attractor;
use crate::structure::analysis::force::{Force, ForceKind};
use crate::structure::definition::lexicon::Term as LexiconTerm;
use crate::text::{ascii_lowercase, join, join_strings, lemma_split_join, lowercase, split, split_str, str_eq, to_lower, views};

verus! {

/// The bytes the `csv` crate writes for one record: fields joined by `,`,
/// a field quoted when it needs to be, and a `\n` terminator.
pub uninterp spec fn csv_record(fields: Seq<Seq<char>>) -> Seq<u8>;

/// `csv::Writer::write_record` on a fresh writer without headers, into a
/// byte buffer. The bytes are named `csv_record` of the fields, not
/// restated. The call always succeeds: the writer's errors are I/O errors of
/// the underlying writer, which a `Vec<u8>` never reports, and a differing
/// field count, which the first record of a fresh writer cannot have (it
/// sets the count); `into_inner` only flushes into the same `Vec<u8>`.
#[verifier::external_body]
pub fn encode_record(fields: &Vec<String>) -> (r: Option<Vec<u8>>)
    ensures
        r is Some,
        r matches Some(bytes) ==> bytes@ == csv_record(fields.deep_view()),
{
    let mut wtr = csv::WriterBuilder::new().has_headers(false).from_writer(Vec::new());
    if wtr.write_record(fields).is_err() {
        return None;
    }
    wtr.into_inner().ok()
}

/// The concatenated encodings of records, in order.
pub open spec fn csv_text(records: Seq<Seq<Seq<char>>>) -> Seq<u8>
    decreases records.len(),
{
    if records.len() == 0 {
        Seq::<u8>::empty()
    } else {
        csv_text(records.drop_last()) + csv_record(records.last())
    }
}

/// Encodes each record and concatenates the bytes (the encoding of a
/// record always succeeds, so the result is always `Some`).
pub fn encode_records(records: &Vec<Vec<String>>) -> (r: Option<Vec<u8>>)
    ensures
        r is Some,
        r matches Some(bytes) ==> bytes@ == csv_text(records.deep_view()),
{
    let mut out: Vec<u8> = Vec::new();
    let mut i: usize = 0;
    while i < records.len()
        invariant
            i <= records@.len(),
            out@ == csv_text(records.deep_view().take(i as int)),
        decreases records@.len() - i,
    {
        let enc = encode_record(&records[i]);
        match enc {
            None => {
                return None;
            },
            Some(mut bytes) => {
                let ghost before = out@;
                out.append(&mut bytes);
                assert(records.deep_view().take(i + 1).drop_last() =~= records.deep_view().take(
                    i as int,
                ));
                assert(records.deep_view()[i as int] == records@[i as int].deep_view());
            },
        }
        i = i + 1;
    }
    assert(records.deep_view().take(records@.len() as int) =~= records.deep_view());
    Some(out)
}

/// A CSV file: a header line (UTF-8, then `\n`) and the records.
pub open spec fn csv_file(header: Seq<char>, records: Seq<Seq<Seq<char>>>) -> Seq<u8> {
    encode_utf8(header) + seq![10u8] + csv_text(records)
}

/// The bytes of a CSV file with the given header line.
pub fn csv_file_bytes(header: &str, records: &Vec<Vec<String>>) -> (r: Option<Vec<u8>>)
    ensures
        r is Some,
        r matches Some(bytes) ==> bytes@ == csv_file(header@, records.deep_view()),
{
    let mut out = header.as_bytes_vec();
    out.push(10u8);
    match encode_records(records) {
        None => None,
        Some(mut body) => {
            out.append(&mut body);
            Some(out)
        },
    }
}

/// The data rows of a CSV text as `csv::ReaderBuilder::new()
/// .has_headers(true)` reads them: the first row is the header and is not
/// returned; `None` when the reader reports an error (text that is not
/// UTF-8, or rows of different lengths).
pub uninterp spec fn csv_rows(bytes: Seq<u8>) -> Option<Seq<Seq<Seq<char>>>>;

/// A character a header name may hold: not the delimiter, the quote, a
/// line break or the byte-order mark.
pub open spec fn plain_char(c: char) -> bool {
    c != ',' && c != '"' && c != '\r' && c != '\n' && c != '\u{feff}'
}

/// A header name written as is: non-empty, of plain characters.
pub open spec fn plain_name(n: Seq<char>) -> bool {
    n.len() > 0 && forall|i: int| 0 <= i < n.len() ==> #[trigger] plain_char(n[i])
}

/// Header names that a header line joins with `,` and the reader splits
/// back: at least one, each plain.
pub open spec fn plain_names(names: Seq<Seq<char>>) -> bool {
    names.len() > 0 && forall|k: int| 0 <= k < names.len() ==> #[trigger] plain_name(names[k])
}

/// `csv::Reader::records` over the bytes, header row skipped. The rows are
/// named `csv_rows` of the bytes, not restated. Of text that `csv_file`
/// lays out (a header line of plain names, then records that
/// `csv::Writer::write_record` encoded, each with as many fields as the
/// header) the reader gives back exactly the records: the writer quotes
/// every field holding a delimiter, quote or line break and doubles its
/// quotes, writes a lone empty field as `""`, and the reader undoes
/// exactly that; the header has no quote or line break, so it is read as
/// one line of as many fields as names.
#[verifier::external_body]
pub fn decode_rows(bytes: &[u8]) -> (r: Option<Vec<Vec<String>>>)
    ensures
        match r {
            Some(rows) => csv_rows(bytes@) == Some(rows.deep_view()),
            None => csv_rows(bytes@) is None,
        },
        forall|names: Seq<Seq<char>>, recs: Seq<Seq<Seq<char>>>|
            bytes@ == #[trigger] csv_file(join(names, ","@), recs) && plain_names(names) && (forall|i: int|
                0 <= i < recs.len() ==> (#[trigger] recs[i]).len() == names.len()) ==> r is Some
                && r->0.deep_view() == recs,
{
    let mut rdr = csv::ReaderBuilder::new().has_headers(true).from_reader(bytes);
    let mut out: Vec<Vec<String>> = Vec::new();
    for rec in rdr.records() {
        match rec {
            Ok(rec) => out.push(rec.iter().map(|f| f.to_string()).collect()),
            Err(_) => return None,
        }
    }
    Some(out)
}

/// Field `i` of a row, or the empty text when the row is shorter.
pub open spec fn field(row: Seq<Seq<char>>, i: int) -> Seq<char> {
    if 0 <= i < row.len() {
        row[i]
    } else {
        Seq::<char>::empty()
    }
}

/// `field` on a row.
pub fn field_of(row: &Vec<String>, i: usize) -> (r: String)
    ensures
        r@ == field(row.deep_view(), i as int),
{
    if i < row.len() {
        row[i].clone()
    } else {
        String::new()
    }
}

/// The header of `forces.csv`.
pub open spec fn forces_header() -> Seq<char> {
    "id,kind,shortname,naive_change,outcomes,description,attractor_id"@
}

/// The column names of `forces.csv`.
pub open spec fn forces_columns() -> Seq<Seq<char>> {
    seq!["id"@, "kind"@, "shortname"@, "naive_change"@, "outcomes"@, "description"@, "attractor_id"@]
}

/// The header of `forces.csv` is its column names joined with `,`, and
/// those names are plain.
pub proof fn lemma_forces_header()
    ensures
        forces_header() == join(forces_columns(), ","@),
        plain_names(forces_columns()),
{
    reveal_strlit("id,kind,shortname,naive_change,outcomes,description,attractor_id");
    reveal_strlit("id");
    reveal_strlit("kind");
    reveal_strlit("shortname");
    reveal_strlit("naive_change");
    reveal_strlit("outcomes");
    reveal_strlit("description");
    reveal_strlit("attractor_id");
    reveal_strlit(",");
    reveal_with_fuel(join, 8);
    assert(forces_header() =~= join(forces_columns(), ","@));
}

/// The contents `forces_to_csv` gives for the forces.
pub open spec fn forces_csv(forces: Seq<Force>) -> Seq<u8> {
    csv_file(forces_header(), forces.map_values(|f: Force| force_record(f)))
}

/// A force `forces.csv` stores without loss: each outcome is non-empty and
/// holds no `|` (the separator the outcomes are joined with).
pub open spec fn stored_whole(f: Force) -> bool {
    forall|k: int| 0 <= k < f.outcomes@.len() ==> {
        &&& (#[trigger] f.outcomes@[k])@.len() > 0
        &&& forall|j: int| 0 <= j < f.outcomes@[k]@.len() ==> f.outcomes@[k]@[j] != '|'
    }
}

/// Pieces that are all non-empty are kept as they are.
pub proof fn lemma_nonempty_pieces_keeps(pieces: Seq<Seq<char>>)
    requires
        forall|k: int| 0 <= k < pieces.len() ==> (#[trigger] pieces[k]).len() > 0,
    ensures
        nonempty_pieces(pieces) == pieces,
    decreases pieces.len(),
{
    if pieces.len() > 0 {
        lemma_nonempty_pieces_keeps(pieces.drop_last());
        assert(pieces.drop_last().push(pieces.last()) =~= pieces);
    }
}

/// The record of a force that `forces.csv` stores without loss reads back
/// as that force, the kind read from its ASCII word.
pub proof fn lemma_force_record_reads_back(f: Force)
    requires
        stored_whole(f),
    ensures
        is_ascii_chars(field(force_record(f), 1)),
        (ascii_lowercase(field(force_record(f), 1)) == "purpose"@) == (f.kind == ForceKind::Purpose),
        force_of_row(force_record(f)).1 == force_shape(f).1,
        force_of_row(force_record(f)).2 == force_shape(f).2,
{
    let row = force_record(f);
    reveal_strlit("purpose");
    reveal_strlit("stressor");
    assert(field(row, 1) == kind_word(f.kind));
    assert(ascii_lowercase("purpose"@) =~= "purpose"@);
    assert(ascii_lowercase("stressor"@) =~= "stressor"@);
    assert("stressor"@ != "purpose"@) by {
        assert("stressor"@[0] != "purpose"@[0]);
    }
    assert(force_of_row(row).1 =~= force_shape(f).1);
    let outs = views(f.outcomes@);
    if outs.len() == 0 {
        assert(join(outs, "|"@) =~= Seq::<char>::empty());
        assert(split(Seq::<char>::empty(), '|') =~= seq![Seq::<char>::empty()]);
        reveal_with_fuel(nonempty_pieces, 2);
        assert(nonempty_pieces(seq![Seq::<char>::empty()]) =~= Seq::<Seq<char>>::empty());
        assert(outs =~= Seq::<Seq<char>>::empty());
    } else {
        assert forall|k: int, j: int| 0 <= k < outs.len() && 0 <= j < outs[k].len() implies #[trigger] outs[k][j]
            != '|' by {
            assert(outs[k] == f.outcomes@[k]@);
        }
        reveal_strlit("|");
        assert("|"@ =~= seq!['|']);
        lemma_split_join(outs, '|');
        assert forall|k: int| 0 <= k < outs.len() implies (#[trigger] outs[k]).len() > 0 by {
            assert(outs[k] == f.outcomes@[k]@);
        }
        lemma_nonempty_pieces_keeps(outs);
    }
}

/// The word `forces.csv` stores for a kind.
pub open spec fn kind_word(k: ForceKind) -> Seq<char> {
    match k {
        ForceKind::Purpose => "purpose"@,
        ForceKind::Stressor => "stressor"@,
    }
}

/// A force as a `forces.csv` record: its outcomes joined by `|`.
pub open spec fn force_record(f: Force) -> Seq<Seq<char>> {
    seq![
        f.id@,
        kind_word(f.kind),
        f.shortname@,
        f.naive_change@,
        join(views(f.outcomes@), "|"@),
        f.description@,
        f.attractor_id@,
    ]
}

/// The contents of `forces.csv`; always `Some`.
pub fn forces_to_csv(forces: &[Force]) -> (r: Option<Vec<u8>>)
    ensures
        r is Some,
        r matches Some(bytes) ==> bytes@ == forces_csv(forces@),
{
    let mut records: Vec<Vec<String>> = Vec::new();
    let mut i: usize = 0;
    while i < forces.len()
        invariant
            i <= forces@.len(),
            records.deep_view() == forces@.take(i as int).map_values(|f: Force| force_record(f)),
        decreases forces@.len() - i,
    {
        let f = &forces[i];
        let mut rec: Vec<String> = Vec::new();
        rec.push(f.id.clone());
        let kind = match f.kind {
            ForceKind::Purpose => String::from_str("purpose"),
            ForceKind::Stressor => String::from_str("stressor"),
        };
        rec.push(kind);
        rec.push(f.shortname.clone());
        rec.push(f.naive_change.clone());
        rec.push(join_strings(f.outcomes.as_slice(), "|"));
        rec.push(f.description.clone());
        rec.push(f.attractor_id.clone());
        assert(rec.deep_view() =~= force_record(forces@[i as int]));
        let ghost old_r = records.deep_view();
        records.push(rec);
        assert(records.deep_view() =~= old_r.push(force_record(forces@[i as int])));
        i = i + 1;
        assert(records.deep_view() =~= forces@.take(i as int).map_values(|f: Force| force_record(f)));
    }
    assert(forces@.take(forces@.len() as int) =~= forces@);
    csv_file_bytes("id,kind,shortname,naive_change,outcomes,description,attractor_id", &records)
}

/// The non-empty pieces of a `|`-separated field, in order.
pub open spec fn nonempty_pieces(pieces: Seq<Seq<char>>) -> Seq<Seq<char>>
    decreases pieces.len(),
{
    if pieces.len() == 0 {
        pieces
    } else {
        let rest = nonempty_pieces(pieces.drop_last());
        if pieces.last().len() == 0 {
            rest
        } else {
            rest.push(pieces.last())
        }
    }
}

/// The force a `forces.csv` row describes: `purpose` in any letter case is a
/// purpose, anything else a stressor; outcomes split at `|`, empty pieces
/// dropped; missing fields empty.
pub open spec fn force_of_row(row: Seq<Seq<char>>) -> (ForceKind, Seq<Seq<char>>, Seq<Seq<char>>) {
    (
        if lowercase(field(row, 1)) == "purpose"@ {
            ForceKind::Purpose
        } else {
            ForceKind::Stressor
        },
        seq![field(row, 0), field(row, 2), field(row, 3), field(row, 5), field(row, 6)],
        nonempty_pieces(split(field(row, 4), '|')),
    )
}

/// A force's fields in the shape `force_of_row` gives.
pub open spec fn force_shape(f: Force) -> (ForceKind, Seq<Seq<char>>, Seq<Seq<char>>) {
    (
        f.kind,
        seq![f.id@, f.shortname@, f.naive_change@, f.description@, f.attractor_id@],
        views(f.outcomes@),
    )
}

/// Reads one `forces.csv` row.
pub fn force_from_record(row: &Vec<String>) -> (r: Force)
    ensures
        force_shape(r) == force_of_row(row.deep_view()),
        is_ascii_chars(field(row.deep_view(), 1)) ==> ((r.kind == ForceKind::Purpose) == (ascii_lowercase(
            field(row.deep_view(), 1),
        ) == "purpose"@)),
{
    let kind_text = to_lower(field_of(row, 1).as_str());
    let kind = if str_eq(kind_text.as_str(), "purpose") {
        ForceKind::Purpose
    } else {
        ForceKind::Stressor
    };
    let pieces = split_str(field_of(row, 4).as_str(), '|');
    let ghost pv = views(pieces@);
    let mut outcomes: Vec<String> = Vec::new();
    let mut k: usize = 0;
    while k < pieces.len()
        invariant
            k <= pieces@.len(),
            pv == views(pieces@),
            views(outcomes@) == nonempty_pieces(pv.take(k as int)),
        decreases pieces@.len() - k,
    {
        assert(pv.take(k + 1).drop_last() =~= pv.take(k as int));
        assert(pv.take(k + 1).last() == pieces@[k as int]@);
        if pieces[k].as_str().unicode_len() > 0 {
            let ghost before = views(outcomes@);
            outcomes.push(pieces[k].clone());
            assert(views(outcomes@) =~= before.push(pieces@[k as int]@));
        }
        k = k + 1;
    }
    assert(pv.take(pv.len() as int) =~= pv);
    let r = Force {
        id: field_of(row, 0),
        kind,
        shortname: field_of(row, 2),
        naive_change: field_of(row, 3),
        outcomes,
        description: field_of(row, 5),
        attractor_id: field_of(row, 6),
    };
    assert(force_shape(r).1 =~= force_of_row(row.deep_view()).1);
    r
}

/// The forces of a `forces.csv` text; `None` when the `csv` crate cannot
/// read it.
pub fn forces_from_csv(bytes: &[u8]) -> (r: Option<Vec<Force>>)
    ensures
        r is None <==> csv_rows(bytes@) is None,
        r matches Some(fs) ==> csv_rows(bytes@) matches Some(rows) && fs@.len() == rows.len()
            && forall|i: int| 0 <= i < rows.len() ==> #[trigger] force_shape(fs@[i]) == force_of_row(rows[i]),
        forall|fs: Seq<Force>|
            bytes@ == #[trigger] forces_csv(fs) && (forall|i: int| 0 <= i < fs.len() ==> stored_whole(
                #[trigger] fs[i],
            )) ==> r is Some && r->0@.len() == fs.len() && forall|i: int|
                0 <= i < fs.len() ==> #[trigger] force_shape(r->0@[i]) == force_shape(fs[i]),
{
    match decode_rows(bytes) {
        None => {
            proof {
                lemma_forces_header();
                assert forall|fs: Seq<Force>|
                    bytes@ == #[trigger] forces_csv(fs) && (forall|i: int| 0 <= i < fs.len() ==> stored_whole(
                        #[trigger] fs[i],
                    )) implies false by {
                    let recs = fs.map_values(|f: Force| force_record(f));
                    assert(bytes@ == csv_file(join(forces_columns(), ","@), recs));
                    assert forall|i: int| 0 <= i < recs.len() implies (#[trigger] recs[i]).len()
                        == forces_columns().len() by {}
                }
            }
            None
        },
        Some(rows) => {
            let ghost rv = rows.deep_view();
            let mut out: Vec<Force> = Vec::new();
            let mut i: usize = 0;
            while i < rows.len()
                invariant
                    i <= rows@.len(),
                    rv == rows.deep_view(),
                    out@.len() == i,
                    forall|j: int| 0 <= j < i ==> #[trigger] force_shape(out@[j]) == force_of_row(rv[j]),
                    forall|j: int|
                        0 <= j < i && is_ascii_chars(field(rv[j], 1)) ==> ((#[trigger] out@[j]).kind
                            == ForceKind::Purpose) == (ascii_lowercase(field(rv[j], 1)) == "purpose"@),
                decreases rows@.len() - i,
            {
                let f = force_from_record(&rows[i]);
                assert(rv[i as int] == rows@[i as int].deep_view());
                out.push(f);
                i = i + 1;
            }
            proof {
                lemma_forces_header();
                assert forall|fs: Seq<Force>|
                    bytes@ == #[trigger] forces_csv(fs) && (forall|i: int| 0 <= i < fs.len() ==> stored_whole(
                        #[trigger] fs[i],
                    )) implies out@.len() == fs.len() && forall|i: int|
                    0 <= i < fs.len() ==> #[trigger] force_shape(out@[i]) == force_shape(fs[i]) by {
                    let recs = fs.map_values(|f: Force| force_record(f));
                    assert(bytes@ == csv_file(join(forces_columns(), ","@), recs));
                    assert forall|i: int| 0 <= i < recs.len() implies (#[trigger] recs[i]).len()
                        == forces_columns().len() by {}
                    assert(rv == recs);
                    assert forall|i: int| 0 <= i < fs.len() implies #[trigger] force_shape(out@[i]) == force_shape(
                        fs[i],
                    ) by {
                        assert(rv[i] == force_record(fs[i]));
                        assert(stored_whole(fs[i]));
                        lemma_force_record_reads_back(fs[i]);
                        assert(force_shape(out@[i]) == force_of_row(rv[i]));
                        assert(out@[i].kind == fs[i].kind);
                    }
                }
            }
            Some(out)
        },
    }
}

/// The header of `lexicon.csv`.
pub open spec fn lexicon_header() -> Seq<char> {
    "term,definition,domain,aliases"@
}

/// A lexicon term as a `lexicon.csv` record.
pub open spec fn lexicon_record(t: LexiconTerm) -> Seq<Seq<char>> {
    seq![t.term@, t.definition@, t.domain@, t.aliases@]
}

/// The contents of `lexicon.csv`; always `Some`.
pub fn lexicon_to_csv(terms: &[LexiconTerm]) -> (r: Option<Vec<u8>>)
    ensures
        r is Some,
        r matches Some(bytes) ==> bytes@ == csv_file(
            lexicon_header(),
            terms@.map_values(|t: LexiconTerm| lexicon_record(t)),
        ),
{
    let mut records: Vec<Vec<String>> = Vec::new();
    let mut i: usize = 0;
    while i < terms.len()
        invariant
            i <= terms@.len(),
            records.deep_view() == terms@.take(i as int).map_values(
                |t: LexiconTerm| lexicon_record(t),
            ),
        decreases terms@.len() - i,
    {
        let t = &terms[i];
        let mut rec: Vec<String> = Vec::new();
        rec.push(t.term.clone());
        rec.push(t.definition.clone());
        rec.push(t.domain.clone());
        rec.push(t.aliases.clone());
        assert(rec.deep_view() =~= lexicon_record(terms@[i as int]));
        let ghost old_r = records.deep_view();
        records.push(rec);
        assert(records.deep_view() =~= old_r.push(lexicon_record(terms@[i as int])));
        i = i + 1;
        assert(records.deep_view() =~= terms@.take(i as int).map_values(
            |t: LexiconTerm| lexicon_record(t),
        ));
    }
    assert(terms@.take(terms@.len() as int) =~= terms@);
    csv_file_bytes("term,definition,domain,aliases", &records)
}

/// The header of `attractors.csv` in the v3 shape.
pub open spec fn attractors_header() -> Seq<char> {
    "id,name,description,positive_state,negative_state"@
}

/// The column names of `attractors.csv` in the v3 shape.
pub open spec fn attractors_columns() -> Seq<Seq<char>> {
    seq!["id"@, "name"@, "description"@, "positive_state"@, "negative_state"@]
}

/// The v3 header of `attractors.csv` is its column names joined with `,`,
/// and those names are plain.
pub proof fn lemma_attractors_header()
    ensures
        attractors_header() == join(attractors_columns(), ","@),
        plain_names(attractors_columns()),
{
    reveal_strlit("id,name,description,positive_state,negative_state");
    reveal_strlit("id");
    reveal_strlit("name");
    reveal_strlit("description");
    reveal_strlit("positive_state");
    reveal_strlit("negative_state");
    reveal_strlit(",");
    reveal_with_fuel(join, 6);
    assert(attractors_header() =~= join(attractors_columns(), ","@));
}

/// The contents `attractors_v3_to_csv` gives for the attractors.
pub open spec fn attractors_csv(attractors: Seq<V3Attractor>) -> Seq<u8> {
    csv_file(attractors_header(), attractors.map_values(|a: V3Attractor| attractor_record(a)))
}

/// A v3 attractor as an `attractors.csv` record.
pub open spec fn attractor_record(a: V3Attractor) -> Seq<Seq<char>> {
    seq![a.id@, a.name@, a.description@, a.positive_state@, a.negative_state@]
}

/// The contents of `attractors.csv` in the v3 shape; always `Some`.
pub fn attractors_v3_to_csv(attractors: &[V3Attractor]) -> (r: Option<Vec<u8>>)
    ensures
        r is Some,
        r matches Some(bytes) ==> bytes@ == attractors_csv(attractors@),
{
    let mut records: Vec<Vec<String>> = Vec::new();
    let mut i: usize = 0;
    while i < attractors.len()
        invariant
            i <= attractors@.len(),
            records.deep_view() == attractors@.take(i as int).map_values(
                |a: V3Attractor| attractor_record(a),
            ),
        decreases attractors@.len() - i,
    {
        let a = &attractors[i];
        let mut rec: Vec<String> = Vec::new();
        rec.push(a.id.clone());
        rec.push(a.name.clone());
        rec.push(a.description.clone());
        rec.push(a.positive_state.clone());
        rec.push(a.negative_state.clone());
        assert(rec.deep_view() =~= attractor_record(attractors@[i as int]));
        let ghost old_r = records.deep_view();
        records.push(rec);
        assert(records.deep_view() =~= old_r.push(attractor_record(attractors@[i as int])));
        i = i + 1;
        assert(records.deep_view() =~= attractors@.take(i as int).map_values(
            |a: V3Attractor| attractor_record(a),
        ));
    }
    assert(attractors@.take(attractors@.len() as int) =~= attractors@);
    csv_file_bytes("id,name,description,positive_state,negative_state", &records)
}

/// The v3 attractors of an `attractors.csv` text, fields by position
/// (missing ones empty); `None` when the `csv` crate cannot read it.
pub fn attractors_v3_from_csv(bytes: &[u8]) -> (r: Option<Vec<V3Attractor>>)
    ensures
        r is None <==> csv_rows(bytes@) is None,
        r matches Some(v) ==> csv_rows(bytes@) matches Some(rows) && v@.len() == rows.len()
            && forall|i: int|
            0 <= i < rows.len() ==> #[trigger] attractor_record(v@[i]) == seq![
                field(rows[i], 0),
                field(rows[i], 1),
                field(rows[i], 2),
                field(rows[i], 3),
                field(rows[i], 4),
            ],
        forall|v: Seq<V3Attractor>| bytes@ == #[trigger] attractors_csv(v) ==> r is Some && r->0@.len() == v.len()
            && forall|i: int| 0 <= i < v.len() ==> #[trigger] attractor_record(r->0@[i]) == attractor_record(v[i]),
{
    match decode_rows(bytes) {
        None => {
            proof {
                lemma_attractors_header();
                assert forall|v: Seq<V3Attractor>| bytes@ == #[trigger] attractors_csv(v) implies false by {
                    let recs = v.map_values(|a: V3Attractor| attractor_record(a));
                    assert(bytes@ == csv_file(join(attractors_columns(), ","@), recs));
                    assert forall|i: int| 0 <= i < recs.len() implies (#[trigger] recs[i]).len()
                        == attractors_columns().len() by {}
                }
            }
            None
        },
        Some(rows) => {
            let ghost rv = rows.deep_view();
            let mut out: Vec<V3Attractor> = Vec::new();
            let mut i: usize = 0;
            while i < rows.len()
                invariant
                    i <= rows@.len(),
                    rv == rows.deep_view(),
                    out@.len() == i,
                    forall|j: int|
                        0 <= j < i ==> #[trigger] attractor_record(out@[j]) == seq![
                            field(rv[j], 0),
                            field(rv[j], 1),
                            field(rv[j], 2),
                            field(rv[j], 3),
                            field(rv[j], 4),
                        ],
                decreases rows@.len() - i,
            {
                let row = &rows[i];
                assert(rv[i as int] == rows@[i as int].deep_view());
                let a = V3Attractor {
                    id: field_of(row, 0),
                    name: field_of(row, 1),
                    description: field_of(row, 2),
                    positive_state: field_of(row, 3),
                    negative_state: field_of(row, 4),
                };
                assert(attractor_record(a) =~= seq![
                    field(rv[i as int], 0),
                    field(rv[i as int], 1),
                    field(rv[i as int], 2),
                    field(rv[i as int], 3),
                    field(rv[i as int], 4),
                ]);
                out.push(a);
                i = i + 1;
            }
            proof {
                lemma_attractors_header();
                assert forall|v: Seq<V3Attractor>| bytes@ == #[trigger] attractors_csv(v) implies out@.len()
                    == v.len() && forall|i: int|
                    0 <= i < v.len() ==> #[trigger] attractor_record(out@[i]) == attractor_record(v[i]) by {
                    let recs = v.map_values(|a: V3Attractor| attractor_record(a));
                    assert(bytes@ == csv_file(join(attractors_columns(), ","@), recs));
                    assert forall|i: int| 0 <= i < recs.len() implies (#[trigger] recs[i]).len()
                        == attractors_columns().len() by {}
                    assert(rv == recs);
                    assert forall|i: int| 0 <= i < v.len() implies #[trigger] attractor_record(out@[i])
                        == attractor_record(v[i]) by {
                        assert(rv[i] == attractor_record(v[i]));
                        assert(attractor_record(out@[i]) =~= attractor_record(v[i]));
                    }
                }
            }
            Some(out)
        },
    }
}

} // verus!
