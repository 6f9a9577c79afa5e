//! Terminology records (`terminology.csv`) and the term index that outcome
//! checks consult.

use vstd::prelude::*;

use vstd::utf8::encode_utf8;

use crate::storage::format::{csv_record, encode_record};
use crate::nkp::order::{in_key_order, is_perm, key_view, key_views, sorted_order, KeyView, SortKey};
use crate::structure::definition::lexicon::Term as LexTerm;
use crate::text::{
    byte_len, byte_length, insert_unique, lowercase, split, split_str, split_words, to_lower, trim, trim_str, views,
    words,
};

verus! {

/// One row of `terminology.csv`.
#[derive(Debug)]
pub struct Term {
    pub term: String,
    pub definition: String,
    pub domain: String,
    pub related_terms: String,
}

impl Clone for Term {
    fn clone(&self) -> (r: Self)
        ensures
            r == *self,
    {
        Term {
            term: self.term.clone(),
            definition: self.definition.clone(),
            domain: self.domain.clone(),
            related_terms: self.related_terms.clone(),
        }
    }
}

/// The header line of `terminology.csv`.
pub open spec fn header() -> Seq<char> {
    "term,definition,domain,related_terms"@
}

/// A term as a `terminology.csv` record.
pub open spec fn record(t: Term) -> Seq<Seq<char>> {
    seq![t.term@, t.definition@, t.domain@, t.related_terms@]
}

/// What appending a term adds to `terminology.csv`: the header line first
/// when the file is empty, then the term's record (always `Some`).
pub fn append_bytes(file_has_content: bool, term: &Term) -> (r: Option<Vec<u8>>)
    ensures
        r is Some,
        r matches Some(bytes) ==> bytes@ == (if file_has_content {
            Seq::<u8>::empty()
        } else {
            encode_utf8(header()) + seq![10u8]
        }) + csv_record(record(*term)),
{
    let mut out: Vec<u8> = Vec::new();
    if !file_has_content {
        out = "term,definition,domain,related_terms".as_bytes_vec();
        out.push(10u8);
    }
    let mut rec: Vec<String> = Vec::new();
    rec.push(term.term.clone());
    rec.push(term.definition.clone());
    rec.push(term.domain.clone());
    rec.push(term.related_terms.clone());
    assert(rec.deep_view() =~= record(*term));
    match encode_record(&rec) {
        None => None,
        Some(mut bytes) => {
            let ghost before = out@;
            out.append(&mut bytes);
            Some(out)
        },
    }
}

/// The lower-cased terms.
pub open spec fn term_words(terms: Seq<Term>) -> Seq<Seq<char>> {
    terms.map_values(|t: Term| lowercase(t.term@))
}

/// Whether `w` is among `s` once `x` is pushed onto it.
proof fn lemma_contains_push(s: Seq<Seq<char>>, x: Seq<char>, w: Seq<char>)
    ensures
        s.push(x).contains(w) <==> (s.contains(w) || w == x),
{
    if s.push(x).contains(w) && w != x {
        let k = choose|k: int| 0 <= k < s.push(x).len() && s.push(x)[k] == w;
        assert(s[k] == w);
    }
    if s.contains(w) {
        let k = choose|k: int| 0 <= k < s.len() && s[k] == w;
        assert(s.push(x)[k] == w);
    }
    if w == x {
        assert(s.push(x)[s.len() as int] == w);
    }
}

/// The set of lower-cased terms, as a list without repeats.
pub fn term_set(terms: &[Term]) -> (r: Vec<String>)
    ensures
        views(r@).no_duplicates(),
        forall|w: Seq<char>| #[trigger] views(r@).contains(w) <==> term_words(terms@).contains(w),
{
    let mut r: Vec<String> = Vec::new();
    let mut i: usize = 0;
    while i < terms.len()
        invariant
            i <= terms@.len(),
            views(r@).no_duplicates(),
            forall|w: Seq<char>| #[trigger]
                views(r@).contains(w) <==> term_words(terms@.take(i as int)).contains(w),
        decreases terms@.len() - i,
    {
        let ghost before = term_words(terms@.take(i as int));
        insert_unique(&mut r, to_lower(terms[i].term.as_str()));
        i = i + 1;
        assert(term_words(terms@.take(i as int)) =~= before.push(lowercase(terms@[i - 1].term@)));
        assert forall|w: Seq<char>| #[trigger]
            views(r@).contains(w) <==> term_words(terms@.take(i as int)).contains(w) by {
            lemma_contains_push(before, lowercase(terms@[i - 1].term@), w);
        }
    }
    assert(terms@.take(terms@.len() as int) =~= terms@);
    r
}

/// The phrase a term or alias adds to the index: trimmed, then lower-cased.
pub open spec fn index_phrase(raw: Seq<char>) -> Seq<char> {
    lowercase(trim(raw))
}

/// A non-empty phrase puts itself and each of its whitespace-separated words
/// in the word set.
pub open spec fn phrase_has_word(phrase: Seq<char>, w: Seq<char>) -> bool {
    phrase.len() > 0 && (w == phrase || words(phrase).contains(w))
}

/// The terms of `terminology.csv`, each followed by its `|`-separated
/// related terms.
pub open spec fn terminology_entries(terms: Seq<Term>) -> Seq<Seq<char>>
    decreases terms.len(),
{
    if terms.len() == 0 {
        Seq::<Seq<char>>::empty()
    } else {
        terminology_entries(terms.drop_last()) + seq![terms.last().term@] + split(
            terms.last().related_terms@,
            '|',
        )
    }
}

/// The terms of the lexicon, each followed by its `|`-separated aliases.
pub open spec fn lexicon_entries(lexicon: Seq<LexTerm>) -> Seq<Seq<char>>
    decreases lexicon.len(),
{
    if lexicon.len() == 0 {
        Seq::<Seq<char>>::empty()
    } else {
        lexicon_entries(lexicon.drop_last()) + seq![lexicon.last().term@] + split(
            lexicon.last().aliases@,
            '|',
        )
    }
}

/// Every raw entry the index reads, in reading order.
pub open spec fn index_entries(terms: Seq<Term>, lexicon: Seq<LexTerm>) -> Seq<Seq<char>> {
    terminology_entries(terms) + lexicon_entries(lexicon)
}

/// The non-empty phrases of the entries, in reading order.
pub open spec fn phrases_of(raws: Seq<Seq<char>>) -> Seq<Seq<char>>
    decreases raws.len(),
{
    if raws.len() == 0 {
        Seq::<Seq<char>>::empty()
    } else {
        let rest = phrases_of(raws.drop_last());
        let p = index_phrase(raws.last());
        if p.len() > 0 {
            rest.push(p)
        } else {
            rest
        }
    }
}

/// `w` is in the word set of the entries.
pub open spec fn indexes_word(raws: Seq<Seq<char>>, w: Seq<char>) -> bool {
    exists|k: int| 0 <= k < raws.len() && phrase_has_word(index_phrase(#[trigger] raws[k]), w)
}

/// Sort key of a phrase: longer (in bytes) first.
pub open spec fn length_key(p: Seq<char>) -> KeyView {
    (false, byte_len(p) as usize, Seq::<char>::empty(), Seq::<char>::empty())
}

/// `Vec::dedup`: runs of equal neighbours reduced to one.
pub open spec fn dedup_adjacent(s: Seq<Seq<char>>) -> Seq<Seq<char>>
    decreases s.len(),
{
    if s.len() == 0 {
        s
    } else {
        let rest = dedup_adjacent(s.drop_last());
        if s.len() >= 2 && s[s.len() - 2] == s.last() {
            rest
        } else {
            rest.push(s.last())
        }
    }
}

/// `out` is `phrases` stably sorted longest (in bytes) first, then with
/// equal neighbours reduced to one.
pub open spec fn longest_first(phrases: Seq<Seq<char>>, out: Seq<Seq<char>>) -> bool {
    exists|p: Seq<usize>|
        #![trigger is_perm(p, phrases.len() as int)]
        is_perm(p, phrases.len() as int) && in_key_order(
            phrases.map_values(|q: Seq<char>| length_key(q)),
            p,
        ) && out == dedup_adjacent(p.map_values(|j: usize| phrases[j as int]))
}

/// The words and phrases that outcome checks can match against.
#[derive(Debug, Clone)]
pub struct TermIndex {
    /// Every phrase and every word of a phrase, once each.
    pub words: Vec<String>,
    /// The phrases, longest first.
    pub phrases: Vec<String>,
}

/// `v` followed by `pieces`.
fn append_strings(v: &mut Vec<String>, pieces: &Vec<String>)
    ensures
        views(final(v)@) == views(old(v)@) + views(pieces@),
{
    let mut i: usize = 0;
    while i < pieces.len()
        invariant
            i <= pieces@.len(),
            views(v@) == views(old(v)@) + views(pieces@).take(i as int),
        decreases pieces@.len() - i,
    {
        let ghost before = views(v@);
        v.push(pieces[i].clone());
        assert(views(v@) =~= before.push(pieces@[i as int]@));
        i = i + 1;
        assert(views(pieces@).take(i as int) =~= views(pieces@).take(i - 1).push(pieces@[i - 1]@));
    }
    assert(views(pieces@).take(pieces@.len() as int) =~= views(pieces@));
}

/// The raw entries of both tables, in reading order.
fn collect_entries(terms: &[Term], lexicon: &[LexTerm]) -> (r: Vec<String>)
    ensures
        views(r@) == index_entries(terms@, lexicon@),
{
    let mut r: Vec<String> = Vec::new();
    let mut i: usize = 0;
    while i < terms.len()
        invariant
            i <= terms@.len(),
            views(r@) == terminology_entries(terms@.take(i as int)),
        decreases terms@.len() - i,
    {
        let ghost before = views(r@);
        r.push(terms[i].term.clone());
        assert(views(r@) =~= before + seq![terms@[i as int].term@]);
        let pieces = split_str(terms[i].related_terms.as_str(), '|');
        append_strings(&mut r, &pieces);
        i = i + 1;
        assert(terms@.take(i as int).drop_last() =~= terms@.take(i - 1));
    }
    assert(terms@.take(terms@.len() as int) =~= terms@);
    let ghost head = views(r@);
    let mut j: usize = 0;
    while j < lexicon.len()
        invariant
            j <= lexicon@.len(),
            head == terminology_entries(terms@),
            views(r@) == head + lexicon_entries(lexicon@.take(j as int)),
        decreases lexicon@.len() - j,
    {
        let ghost before = views(r@);
        r.push(lexicon[j].term.clone());
        assert(views(r@) =~= before + seq![lexicon@[j as int].term@]);
        let pieces = split_str(lexicon[j].aliases.as_str(), '|');
        append_strings(&mut r, &pieces);
        j = j + 1;
        assert(lexicon@.take(j as int).drop_last() =~= lexicon@.take(j - 1));
        assert(views(r@) =~= head + lexicon_entries(lexicon@.take(j as int)));
    }
    assert(lexicon@.take(lexicon@.len() as int) =~= lexicon@);
    r
}

proof fn lemma_indexes_word_step(raws: Seq<Seq<char>>, i: int, w: Seq<char>)
    requires
        0 <= i < raws.len(),
    ensures
        indexes_word(raws.take(i + 1), w) <==> (indexes_word(raws.take(i), w) || phrase_has_word(
            index_phrase(raws[i]),
            w,
        )),
{
    if indexes_word(raws.take(i + 1), w) {
        let k = choose|k: int|
            0 <= k < raws.take(i + 1).len() && phrase_has_word(
                index_phrase(#[trigger] raws.take(i + 1)[k]),
                w,
            );
        if k < i {
            assert(raws.take(i)[k] == raws.take(i + 1)[k]);
        }
    }
    if indexes_word(raws.take(i), w) {
        let k = choose|k: int|
            0 <= k < raws.take(i).len() && phrase_has_word(index_phrase(#[trigger] raws.take(i)[k]), w);
        assert(raws.take(i + 1)[k] == raws.take(i)[k]);
    }
    if phrase_has_word(index_phrase(raws[i]), w) {
        assert(raws.take(i + 1)[i] == raws[i]);
    }
}

/// The longest-first order of the phrases, equal neighbours reduced to one.
fn order_phrases(phrases: &Vec<String>) -> (r: Vec<String>)
    ensures
        longest_first(views(phrases@), views(r@)),
{
    let ghost ph = views(phrases@);
    let mut keys: Vec<SortKey> = Vec::new();
    let mut i: usize = 0;
    while i < phrases.len()
        invariant
            i <= phrases@.len(),
            ph == views(phrases@),
            key_views(keys@) == ph.take(i as int).map_values(|q: Seq<char>| length_key(q)),
        decreases phrases@.len() - i,
    {
        let k = SortKey {
            first: false,
            count: byte_length(phrases[i].as_str()),
            major: Vec::new(),
            minor: Vec::new(),
        };
        assert(key_view(k) == length_key(ph[i as int]));
        let ghost before = key_views(keys@);
        keys.push(k);
        assert(key_views(keys@) =~= before.push(key_view(k)));
        i = i + 1;
        assert(ph.take(i as int).map_values(|q: Seq<char>| length_key(q)) =~= ph.take(i - 1).map_values(
            |q: Seq<char>| length_key(q),
        ).push(length_key(ph[i - 1])));
    }
    assert(ph.take(ph.len() as int) =~= ph);
    let p = sorted_order(&keys);
    let mut sorted: Vec<String> = Vec::new();
    let mut j: usize = 0;
    while j < p.len()
        invariant
            j <= p@.len(),
            is_perm(p@, ph.len() as int),
            ph == views(phrases@),
            views(sorted@) == p@.take(j as int).map_values(|m: usize| ph[m as int]),
        decreases p@.len() - j,
    {
        let m = p[j];
        let ghost before = views(sorted@);
        sorted.push(phrases[m].clone());
        assert(views(sorted@) =~= before.push(ph[m as int]));
        j = j + 1;
        assert(p@.take(j as int).map_values(|m: usize| ph[m as int]) =~= p@.take(j - 1).map_values(
            |m: usize| ph[m as int],
        ).push(ph[p@[j - 1] as int]));
    }
    assert(p@.take(p@.len() as int) =~= p@);
    let ghost srt = views(sorted@);
    let mut out: Vec<String> = Vec::new();
    let mut k: usize = 0;
    while k < sorted.len()
        invariant
            k <= sorted@.len(),
            srt == views(sorted@),
            views(out@) == dedup_adjacent(srt.take(k as int)),
        decreases sorted@.len() - k,
    {
        let ghost before = views(out@);
        assert(srt.take(k + 1).drop_last() =~= srt.take(k as int));
        if k > 0 && sorted[k] == sorted[k - 1] {
            assert(srt.take(k + 1)[k - 1] == srt[k - 1]);
        } else {
            out.push(sorted[k].clone());
            assert(views(out@) =~= before.push(srt[k as int]));
        }
        k = k + 1;
    }
    assert(srt.take(srt.len() as int) =~= srt);
    assert(key_views(keys@) =~= ph.map_values(|q: Seq<char>| length_key(q)));
    assert(is_perm(p@, ph.len() as int));
    out
}

/// Every word an outcome can match: each phrase and each word of a phrase.
pub open spec fn index_word_set(terms: Seq<Term>, lexicon: Seq<LexTerm>) -> Set<Seq<char>> {
    Set::new(|w: Seq<char>| indexes_word(index_entries(terms, lexicon), w))
}

/// The words of the index (once each) and its phrases in reading order.
pub fn index_parts(terms: &[Term], lexicon: &[LexTerm]) -> (r: (Vec<String>, Vec<String>))
    ensures
        views(r.0@).no_duplicates(),
        forall|w: Seq<char>| #[trigger]
            views(r.0@).contains(w) <==> indexes_word(index_entries(terms@, lexicon@), w),
        views(r.1@) == phrases_of(index_entries(terms@, lexicon@)),
{
    let entries = collect_entries(terms, lexicon);
    let ghost es = views(entries@);
    let mut words_found: Vec<String> = Vec::new();
    let mut phrases: Vec<String> = Vec::new();
    let mut i: usize = 0;
    while i < entries.len()
        invariant
            i <= entries@.len(),
            es == views(entries@),
            views(phrases@) == phrases_of(es.take(i as int)),
            views(words_found@).no_duplicates(),
            forall|w: Seq<char>| #[trigger]
                views(words_found@).contains(w) <==> indexes_word(es.take(i as int), w),
        decreases entries@.len() - i,
    {
        let ghost w_before = views(words_found@);
        let ghost p_before = views(phrases@);
        let trimmed = trim_str(entries[i].as_str());
        let phrase = to_lower(trimmed.as_str());
        assert(phrase@ == index_phrase(es[i as int]));
        assert(es.take(i + 1).drop_last() =~= es.take(i as int));
        if phrase.as_str().unicode_len() > 0 {
            let tokens = split_words(phrase.as_str());
            phrases.push(phrase.clone());
            assert(views(phrases@) =~= p_before.push(phrase@));
            insert_unique(&mut words_found, phrase.clone());
            let mut t: usize = 0;
            while t < tokens.len()
                invariant
                    t <= tokens@.len(),
                    views(tokens@) == words(phrase@),
                    phrase@.len() > 0,
                    views(words_found@).no_duplicates(),
                    forall|w: Seq<char>| #[trigger]
                        views(words_found@).contains(w) <==> (w_before.contains(w) || w == phrase@
                            || views(tokens@).take(t as int).contains(w)),
                decreases tokens@.len() - t,
            {
                let ghost mid = views(words_found@);
                insert_unique(&mut words_found, tokens[t].clone());
                t = t + 1;
                assert forall|w: Seq<char>| #[trigger]
                    views(words_found@).contains(w) <==> (w_before.contains(w) || w == phrase@
                        || views(tokens@).take(t as int).contains(w)) by {
                    assert(views(tokens@).take(t as int) =~= views(tokens@).take(t - 1).push(
                        tokens@[t - 1]@,
                    ));
                    lemma_contains_push(views(tokens@).take(t - 1), tokens@[t - 1]@, w);
                }
            }
            assert(views(tokens@).take(tokens@.len() as int) =~= views(tokens@));
            assert forall|w: Seq<char>| #[trigger]
                views(words_found@).contains(w) <==> indexes_word(es.take(i + 1), w) by {
                lemma_indexes_word_step(es, i as int, w);
            }
        } else {
            assert forall|w: Seq<char>| #[trigger]
                views(words_found@).contains(w) <==> indexes_word(es.take(i + 1), w) by {
                lemma_indexes_word_step(es, i as int, w);
            }
        }
        i = i + 1;
    }
    assert(es.take(es.len() as int) =~= es);
    (words_found, phrases)
}


/// The term index of `terminology.csv` and the lexicon: every phrase (a term
/// or alias, trimmed and lower-cased, when not empty) with its words, and
/// the phrases longest first.
pub fn term_index(terms: &[Term], lexicon: &[LexTerm]) -> (r: TermIndex)
    ensures
        views(r.words@).no_duplicates(),
        forall|w: Seq<char>| #[trigger]
            views(r.words@).contains(w) <==> indexes_word(index_entries(terms@, lexicon@), w),
        longest_first(phrases_of(index_entries(terms@, lexicon@)), views(r.phrases@)),
{
    let (words, phrases) = index_parts(terms, lexicon);
    let ordered = order_phrases(&phrases);
    TermIndex { words, phrases: ordered }
}

} // verus!
