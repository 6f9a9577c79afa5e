//! Ledger checks: every outcome is `<subject> <verb> <predicate…>` and
//! uses the project terminology; every attractor link resolves.

use vstd::prelude::*;

use crate::structure::analysis::attractors::Attractor;
use crate::storage::purposes::Purpose;
use crate::storage::stressors::Stressor;
use crate::storage::terminology::{index_entries, index_parts, index_word_set, phrases_of, Term};
use crate::structure::definition::lexicon::Term as LexiconTerm;
use crate::text::{
    contains_str, contains_string, has_infix, join, join_strings, lowercase, split, split_str, split_words, to_lower,
    trim, trim_str, views, words,
};

verus! {

/// An outcome split into subject, verb and predicates.
#[derive(Debug)]
pub struct OutcomeParts {
    pub subject: String,
    pub verb: String,
    pub predicates: Vec<String>,
}

/// An outcome that fails a check.
#[derive(Debug)]
pub struct OutcomeViolation {
    pub source: String,
    pub id: String,
    pub outcome_str: String,
    pub reason: String,
}

/// A record whose attractor id names no attractor.
#[derive(Debug)]
pub struct LinkViolation {
    pub source: String,
    pub id: String,
    pub missing_attractor_id: String,
}

/// Subject, verb and the single predicate: the first word, the second,
/// and the rest joined by single spaces; `None` below three words.
pub open spec fn parse_outcome_spec(s: Seq<char>) -> Option<(Seq<char>, Seq<char>, Seq<char>)> {
    let w = words(s);
    if w.len() < 3 {
        None
    } else {
        Some((w[0], w[1], join(w.skip(2), " "@)))
    }
}

/// Parses `<subject> <verb> <pred…>`; `None` when there are fewer than
/// three words.
pub fn parse_outcome(outcome_str: &str) -> (r: Option<OutcomeParts>)
    ensures
        r is None <==> parse_outcome_spec(outcome_str@) is None,
        r matches Some(p) ==> parse_outcome_spec(outcome_str@) == Some(
            (p.subject@, p.verb@, join(words(outcome_str@).skip(2), " "@)),
        ) && views(p.predicates@) == seq![join(words(outcome_str@).skip(2), " "@)],
{
    let ws = split_words(outcome_str);
    if ws.len() < 3 {
        return None;
    }
    let subject = ws[0].clone();
    let verb = ws[1].clone();
    let rest = ws.as_slice().split_at(2).1;
    assert(views(rest@) =~= words(outcome_str@).skip(2));
    let predicate = join_strings(rest, " ");
    let mut predicates: Vec<String> = Vec::new();
    predicates.push(predicate);
    assert(views(predicates@) =~= seq![join(words(outcome_str@).skip(2), " "@)]);
    Some(OutcomeParts { subject, verb, predicates })
}

/// Some word of the outcome, lower-cased, is a term.
pub open spec fn uses_terms(
    subject: Seq<char>,
    verb: Seq<char>,
    predicates: Seq<Seq<char>>,
    terms: Set<Seq<char>>,
) -> bool {
    ||| terms.contains(lowercase(subject))
    ||| terms.contains(lowercase(verb))
    ||| exists|p: int, w: int|
        0 <= p < predicates.len() && 0 <= w < words(predicates[p]).len() && terms.contains(
            lowercase(#[trigger] words(predicates[p])[w]),
        )
}

/// Whether any word of the outcome (lower-cased) is in `term_set`.
pub fn outcome_uses_terminology(parts: &OutcomeParts, term_set: &Vec<String>) -> (r: bool)
    ensures
        r == uses_terms(
            parts.subject@,
            parts.verb@,
            views(parts.predicates@),
            views(term_set@).to_set(),
        ),
{
    if contains_string(term_set, &to_lower(parts.subject.as_str())) {
        return true;
    }
    if contains_string(term_set, &to_lower(parts.verb.as_str())) {
        return true;
    }
    let mut p: usize = 0;
    while p < parts.predicates.len()
        invariant
            p <= parts.predicates@.len(),
            !views(term_set@).contains(lowercase(parts.subject@)),
            !views(term_set@).contains(lowercase(parts.verb@)),
            forall|a: int, w: int|
                0 <= a < p && 0 <= w < words(views(parts.predicates@)[a]).len() ==> !views(
                    term_set@,
                ).contains(lowercase(#[trigger] words(views(parts.predicates@)[a])[w])),
        decreases parts.predicates@.len() - p,
    {
        let ws = split_words(parts.predicates[p].as_str());
        assert(views(parts.predicates@)[p as int] == parts.predicates@[p as int]@);
        let mut w: usize = 0;
        while w < ws.len()
            invariant
                p < parts.predicates@.len(),
                w <= ws@.len(),
                views(ws@) == words(views(parts.predicates@)[p as int]),
                forall|b: int| 0 <= b < w ==> !views(term_set@).contains(lowercase(#[trigger] views(ws@)[b])),
            decreases ws@.len() - w,
        {
            let lowered = to_lower(ws[w].as_str());
            assert(views(ws@)[w as int] == ws@[w as int]@);
            if contains_string(term_set, &lowered) {
                assert(words(views(parts.predicates@)[p as int])[w as int] == ws@[w as int]@);
                return true;
            }
            w = w + 1;
        }
        p = p + 1;
    }
    false
}

/// The reason a missing subject/verb/predicate is reported.
pub open spec fn too_short_reason() -> Seq<char> {
    "outcome must have at least subject verb predicate (3 words)"@
}

/// The reason an outcome without a term is reported.
pub open spec fn no_term_reason() -> Seq<char> {
    "no word in this outcome matches the project terminology"@
}

/// The outcome, lower-cased, contains one of the phrases.
pub open spec fn mentions_phrase(outcome: Seq<char>, phrases: Seq<Seq<char>>) -> bool {
    exists|k: int| 0 <= k < phrases.len() && has_infix(lowercase(outcome), #[trigger] phrases[k])
}

/// The finding, if any, for one `|`-separated piece of an outcomes field:
/// blank pieces are skipped; pieces under three words are reported, and so
/// are pieces with no word among `terms` and no phrase among `phrases`.
pub open spec fn piece_finding(raw: Seq<char>, terms: Set<Seq<char>>, phrases: Seq<Seq<char>>) -> Option<
    Seq<char>,
> {
    let t = trim(raw);
    if t.len() == 0 {
        None
    } else {
        match parse_outcome_spec(t) {
            None => Some(too_short_reason()),
            Some(p) => if uses_terms(p.0, p.1, seq![p.2], terms) || mentions_phrase(t, phrases) {
                None
            } else {
                Some(no_term_reason())
            },
        }
    }
}

/// The violations of one record's outcomes field, as
/// (source, id, outcome, reason).
pub open spec fn record_findings(
    source: Seq<char>,
    id: Seq<char>,
    outcomes: Seq<char>,
    terms: Set<Seq<char>>,
    phrases: Seq<Seq<char>>,
) -> Seq<(Seq<char>, Seq<char>, Seq<char>, Seq<char>)> {
    split(outcomes, '|').flat_map(
        |raw: Seq<char>|
            match piece_finding(raw, terms, phrases) {
                Some(reason) => seq![(source, id, trim(raw), reason)],
                None => Seq::<(Seq<char>, Seq<char>, Seq<char>, Seq<char>)>::empty(),
            },
    )
}

pub open spec fn violation_view(v: OutcomeViolation) -> (Seq<char>, Seq<char>, Seq<char>, Seq<char>) {
    (v.source@, v.id@, v.outcome_str@, v.reason@)
}

pub open spec fn violation_views(v: Seq<OutcomeViolation>) -> Seq<
    (Seq<char>, Seq<char>, Seq<char>, Seq<char>),
> {
    v.map_values(|x: OutcomeViolation| violation_view(x))
}

/// Every outcome violation of the stressors, then of the purposes.
pub open spec fn outcome_findings(
    stressors: Seq<Stressor>,
    purposes: Seq<Purpose>,
    terms: Set<Seq<char>>,
    phrases: Seq<Seq<char>>,
) -> Seq<(Seq<char>, Seq<char>, Seq<char>, Seq<char>)> {
    stressors.flat_map(|s: Stressor| record_findings("stressor"@, s.id@, s.outcomes@, terms, phrases))
        + purposes.flat_map(|p: Purpose| record_findings("purpose"@, p.id@, p.outcomes@, terms, phrases))
}

/// Whether the outcome, lower-cased, contains one of the phrases.
fn mentions_phrase_exec(outcome: &str, phrases: &Vec<String>) -> (r: bool)
    ensures
        r == mentions_phrase(outcome@, views(phrases@)),
{
    let lower = to_lower(outcome);
    let mut k: usize = 0;
    while k < phrases.len()
        invariant
            k <= phrases@.len(),
            lower@ == lowercase(outcome@),
            forall|j: int| 0 <= j < k ==> !has_infix(lower@, #[trigger] views(phrases@)[j]),
        decreases phrases@.len() - k,
    {
        assert(views(phrases@)[k as int] == phrases@[k as int]@);
        if contains_str(lower.as_str(), phrases[k].as_str()) {
            return true;
        }
        k = k + 1;
    }
    false
}

fn check_record_outcomes(
    out: &mut Vec<OutcomeViolation>,
    source: &str,
    id: &String,
    outcomes: &String,
    terms: &Vec<String>,
    phrases: &Vec<String>,
)
    ensures
        violation_views(final(out)@) == violation_views(old(out)@) + record_findings(
            source@,
            id@,
            outcomes@,
            views(terms@).to_set(),
            views(phrases@),
        ),
{
    let pieces = split_str(outcomes.as_str(), '|');
    let ghost pv = views(pieces@);
    let ghost tv = views(terms@).to_set();
    let ghost ph = views(phrases@);
    let ghost f = |raw: Seq<char>|
        match piece_finding(raw, tv, ph) {
            Some(reason) => seq![(source@, id@, trim(raw), reason)],
            None => Seq::<(Seq<char>, Seq<char>, Seq<char>, Seq<char>)>::empty(),
        };
    let mut k: usize = 0;
    assert(pv.take(0).flat_map(f) =~= Seq::<(Seq<char>, Seq<char>, Seq<char>, Seq<char>)>::empty());
    assert(violation_views(out@) =~= violation_views(old(out)@) + pv.take(0).flat_map(f));
    while k < pieces.len()
        invariant
            k <= pieces@.len(),
            pv == views(pieces@),
            pv == split(outcomes@, '|'),
            tv == views(terms@).to_set(),
            ph == views(phrases@),
            f == (|raw: Seq<char>|
                match piece_finding(raw, tv, ph) {
                    Some(reason) => seq![(source@, id@, trim(raw), reason)],
                    None => Seq::<(Seq<char>, Seq<char>, Seq<char>, Seq<char>)>::empty(),
                }),
            violation_views(out@) == violation_views(old(out)@) + pv.take(k as int).flat_map(f),
        decreases pieces@.len() - k,
    {
        proof {
            assert(pv.take(k + 1) =~= pv.take(k as int).push(pv[k as int]));
            pv.take(k as int).lemma_flat_map_push(f, pv[k as int]);
            assert(pv[k as int] == pieces@[k as int]@);
        }
        let raw = trim_str(pieces[k].as_str());
        if raw.as_str().unicode_len() > 0 {
            let parsed = parse_outcome(raw.as_str());
            let reason: Option<&str> = match parsed {
                None => Some("outcome must have at least subject verb predicate (3 words)"),
                Some(parts) => {
                    if outcome_uses_terminology(&parts, terms) || mentions_phrase_exec(
                        raw.as_str(),
                        phrases,
                    ) {
                        None
                    } else {
                        Some("no word in this outcome matches the project terminology")
                    }
                },
            };
            match reason {
                Some(text) => {
                    let ghost old_v = violation_views(out@);
                    out.push(
                        OutcomeViolation {
                            source: String::from_str(source),
                            id: id.clone(),
                            outcome_str: raw,
                            reason: String::from_str(text),
                        },
                    );
                    assert(violation_views(out@) =~= old_v + f(pv[k as int]));
                },
                None => {
                    assert(f(pv[k as int]) =~= Seq::<(Seq<char>, Seq<char>, Seq<char>, Seq<char>)>::empty());
                },
            }
        } else {
            assert(f(pv[k as int]) =~= Seq::<(Seq<char>, Seq<char>, Seq<char>, Seq<char>)>::empty());
        }
        k = k + 1;
    }
    assert(pv.take(pieces@.len() as int) =~= pv);
}

/// Checks every outcome of every stressor and purpose against the term
/// index of the terminology and the lexicon (see `outcome_findings`): a word
/// of the index, or a phrase of it inside the outcome, satisfies it.
pub fn check_outcomes(
    stressors: &[Stressor],
    purposes: &[Purpose],
    terms: &[Term],
    lexicon: &[LexiconTerm],
) -> (r: Vec<OutcomeViolation>)
    ensures
        violation_views(r@) == outcome_findings(
            stressors@,
            purposes@,
            index_word_set(terms@, lexicon@),
            phrases_of(index_entries(terms@, lexicon@)),
        ),
{
    let (set, phrases) = index_parts(terms, lexicon);
    let ghost tw = index_word_set(terms@, lexicon@);
    let ghost ph = views(phrases@);
    assert(views(set@).to_set() =~= tw);
    let mut out: Vec<OutcomeViolation> = Vec::new();
    let ghost fs = |s: Stressor| record_findings("stressor"@, s.id@, s.outcomes@, tw, ph);
    let ghost fp = |p: Purpose| record_findings("purpose"@, p.id@, p.outcomes@, tw, ph);
    let mut i: usize = 0;
    assert(stressors@.take(0).flat_map(fs) =~= Seq::<(Seq<char>, Seq<char>, Seq<char>, Seq<char>)>::empty());
    assert(violation_views(out@) =~= stressors@.take(0).flat_map(fs));
    while i < stressors.len()
        invariant
            i <= stressors@.len(),
            views(set@).to_set() == tw,
            ph == views(phrases@),
            fs == (|s: Stressor| record_findings("stressor"@, s.id@, s.outcomes@, tw, ph)),
            violation_views(out@) == stressors@.take(i as int).flat_map(fs),
        decreases stressors@.len() - i,
    {
        proof {
            assert(stressors@.take(i + 1) =~= stressors@.take(i as int).push(stressors@[i as int]));
            stressors@.take(i as int).lemma_flat_map_push(fs, stressors@[i as int]);
        }
        check_record_outcomes(&mut out, "stressor", &stressors[i].id, &stressors[i].outcomes, &set, &phrases);
        i = i + 1;
    }
    assert(stressors@.take(stressors@.len() as int) =~= stressors@);
    let ghost head = violation_views(out@);
    let mut j: usize = 0;
    assert(purposes@.take(0).flat_map(fp) =~= Seq::<(Seq<char>, Seq<char>, Seq<char>, Seq<char>)>::empty());
    assert(violation_views(out@) =~= head + purposes@.take(0).flat_map(fp));
    while j < purposes.len()
        invariant
            j <= purposes@.len(),
            views(set@).to_set() == tw,
            ph == views(phrases@),
            fp == (|p: Purpose| record_findings("purpose"@, p.id@, p.outcomes@, tw, ph)),
            violation_views(out@) == head + purposes@.take(j as int).flat_map(fp),
        decreases purposes@.len() - j,
    {
        proof {
            assert(purposes@.take(j + 1) =~= purposes@.take(j as int).push(purposes@[j as int]));
            purposes@.take(j as int).lemma_flat_map_push(fp, purposes@[j as int]);
        }
        check_record_outcomes(&mut out, "purpose", &purposes[j].id, &purposes[j].outcomes, &set, &phrases);
        assert(violation_views(out@) =~= head + purposes@.take(j + 1).flat_map(fp));
        j = j + 1;
    }
    assert(purposes@.take(purposes@.len() as int) =~= purposes@);
    out
}

pub open spec fn link_view(v: LinkViolation) -> (Seq<char>, Seq<char>, Seq<char>) {
    (v.source@, v.id@, v.missing_attractor_id@)
}

pub open spec fn link_views(v: Seq<LinkViolation>) -> Seq<(Seq<char>, Seq<char>, Seq<char>)> {
    v.map_values(|x: LinkViolation| link_view(x))
}

/// The finding for a record linked to `aid`: none when the link is empty
/// or names a known attractor.
pub open spec fn link_finding(source: Seq<char>, id: Seq<char>, aid: Seq<char>, known: Seq<Seq<char>>) -> Seq<
    (Seq<char>, Seq<char>, Seq<char>),
> {
    if aid.len() > 0 && !known.contains(aid) {
        seq![(source, id, aid)]
    } else {
        Seq::<(Seq<char>, Seq<char>, Seq<char>)>::empty()
    }
}

/// Every dangling attractor link of the stressors, then of the purposes.
pub open spec fn link_findings(stressors: Seq<Stressor>, purposes: Seq<Purpose>, known: Seq<Seq<char>>) -> Seq<
    (Seq<char>, Seq<char>, Seq<char>),
> {
    stressors.flat_map(|s: Stressor| link_finding("stressor"@, s.id@, s.attractor_id@, known))
        + purposes.flat_map(|p: Purpose| link_finding("purpose"@, p.id@, p.attractor_id@, known))
}

/// The ids of the attractors.
pub open spec fn attractor_ids(attractors: Seq<Attractor>) -> Seq<Seq<char>> {
    attractors.map_values(|a: Attractor| a.id@)
}

/// Checks that every non-empty attractor link names an attractor.
pub fn check_links(stressors: &[Stressor], purposes: &[Purpose], attractors: &[Attractor]) -> (r: Vec<
    LinkViolation,
>)
    ensures
        link_views(r@) == link_findings(stressors@, purposes@, attractor_ids(attractors@)),
        forall|j: int|
            0 <= j < stressors@.len() && (#[trigger] stressors@[j]).attractor_id@.len() > 0 && (forall|t: int|
                0 <= t < attractors@.len() ==> attractors@[t].id@ != stressors@[j].attractor_id@)
                ==> link_views(r@).contains(("stressor"@, stressors@[j].id@, stressors@[j].attractor_id@)),
        forall|j: int|
            0 <= j < purposes@.len() && (#[trigger] purposes@[j]).attractor_id@.len() > 0 && (forall|t: int|
                0 <= t < attractors@.len() ==> attractors@[t].id@ != purposes@[j].attractor_id@)
                ==> link_views(r@).contains(("purpose"@, purposes@[j].id@, purposes@[j].attractor_id@)),
        forall|x: (Seq<char>, Seq<char>, Seq<char>)| #[trigger] link_views(r@).contains(x) ==> reported_link(
            stressors@,
            purposes@,
            attractors@,
            x,
        ),
{
    let ghost known = attractor_ids(attractors@);
    let mut ids: Vec<String> = Vec::new();
    let mut a: usize = 0;
    while a < attractors.len()
        invariant
            a <= attractors@.len(),
            views(ids@) == attractor_ids(attractors@.take(a as int)),
        decreases attractors@.len() - a,
    {
        let ghost old_ids = views(ids@);
        ids.push(attractors[a].id.clone());
        assert(views(ids@) =~= old_ids.push(attractors@[a as int].id@));
        a = a + 1;
        assert(attractor_ids(attractors@.take(a as int)) =~= attractor_ids(attractors@.take(a - 1)).push(attractors@[a - 1].id@));
    }
    assert(attractors@.take(attractors@.len() as int) =~= attractors@);
    let mut out: Vec<LinkViolation> = Vec::new();
    let ghost fs = |s: Stressor| link_finding("stressor"@, s.id@, s.attractor_id@, known);
    let ghost fp = |p: Purpose| link_finding("purpose"@, p.id@, p.attractor_id@, known);
    let mut i: usize = 0;
    assert(stressors@.take(0).flat_map(fs) =~= Seq::<(Seq<char>, Seq<char>, Seq<char>)>::empty());
    assert(link_views(out@) =~= stressors@.take(0).flat_map(fs));
    while i < stressors.len()
        invariant
            i <= stressors@.len(),
            views(ids@) == known,
            fs == (|s: Stressor| link_finding("stressor"@, s.id@, s.attractor_id@, known)),
            link_views(out@) == stressors@.take(i as int).flat_map(fs),
        decreases stressors@.len() - i,
    {
        proof {
            assert(stressors@.take(i + 1) =~= stressors@.take(i as int).push(stressors@[i as int]));
            stressors@.take(i as int).lemma_flat_map_push(fs, stressors@[i as int]);
        }
        let s = &stressors[i];
        let ghost old_v = link_views(out@);
        if s.attractor_id.as_str().unicode_len() > 0 && !contains_string(&ids, &s.attractor_id) {
            out.push(LinkViolation {
                source: String::from_str("stressor"),
                id: s.id.clone(),
                missing_attractor_id: s.attractor_id.clone(),
            });
        }
        assert(link_views(out@) =~= old_v + fs(stressors@[i as int]));
        i = i + 1;
    }
    assert(stressors@.take(stressors@.len() as int) =~= stressors@);
    let ghost head = link_views(out@);
    let mut j: usize = 0;
    assert(purposes@.take(0).flat_map(fp) =~= Seq::<(Seq<char>, Seq<char>, Seq<char>)>::empty());
    assert(link_views(out@) =~= head + purposes@.take(0).flat_map(fp));
    while j < purposes.len()
        invariant
            j <= purposes@.len(),
            views(ids@) == known,
            fp == (|p: Purpose| link_finding("purpose"@, p.id@, p.attractor_id@, known)),
            link_views(out@) == head + purposes@.take(j as int).flat_map(fp),
        decreases purposes@.len() - j,
    {
        proof {
            assert(purposes@.take(j + 1) =~= purposes@.take(j as int).push(purposes@[j as int]));
            purposes@.take(j as int).lemma_flat_map_push(fp, purposes@[j as int]);
        }
        let p = &purposes[j];
        let ghost old_v = link_views(out@);
        if p.attractor_id.as_str().unicode_len() > 0 && !contains_string(&ids, &p.attractor_id) {
            out.push(LinkViolation {
                source: String::from_str("purpose"),
                id: p.id.clone(),
                missing_attractor_id: p.attractor_id.clone(),
            });
        }
        assert(link_views(out@) =~= old_v + fp(purposes@[j as int]));
        assert(link_views(out@) =~= head + purposes@.take(j + 1).flat_map(fp));
        j = j + 1;
    }
    assert(purposes@.take(purposes@.len() as int) =~= purposes@);
    proof {
        assert forall|j: int|
            0 <= j < stressors@.len() && (#[trigger] stressors@[j]).attractor_id@.len() > 0 && (forall|t: int|
                0 <= t < attractors@.len() ==> attractors@[t].id@ != stressors@[j].attractor_id@)
                implies link_views(out@).contains(("stressor"@, stressors@[j].id@, stressors@[j].attractor_id@)) by {
            lemma_dangling_stressor_link_reported(stressors@, purposes@, attractors@, j);
        }
        assert forall|j: int|
            0 <= j < purposes@.len() && (#[trigger] purposes@[j]).attractor_id@.len() > 0 && (forall|t: int|
                0 <= t < attractors@.len() ==> attractors@[t].id@ != purposes@[j].attractor_id@)
                implies link_views(out@).contains(("purpose"@, purposes@[j].id@, purposes@[j].attractor_id@)) by {
            lemma_dangling_purpose_link_reported(stressors@, purposes@, attractors@, j);
        }
        assert forall|x: (Seq<char>, Seq<char>, Seq<char>)| #[trigger] link_views(out@).contains(x) implies reported_link(
            stressors@,
            purposes@,
            attractors@,
            x,
        ) by {
            lemma_reported_links_dangle(stressors@, purposes@, attractors@, x);
        }
    }
    out
}

/// Every element of `f` of some item is in the flat map.
pub proof fn lemma_flat_map_includes<A, B>(s: Seq<A>, f: spec_fn(A) -> Seq<B>, j: int, x: B)
    requires
        0 <= j < s.len(),
        f(s[j]).contains(x),
    ensures
        s.flat_map(f).contains(x),
    decreases s.len(),
{
    let front = s.drop_last();
    front.lemma_flat_map_push(f, s.last());
    assert(front.push(s.last()) =~= s);
    if j == s.len() - 1 {
        let i = choose|i: int| 0 <= i < f(s[j]).len() && #[trigger] f(s[j])[i] == x;
        assert(s.flat_map(f)[front.flat_map(f).len() + i] == x);
    } else {
        assert(front[j] == s[j]);
        lemma_flat_map_includes(front, f, j, x);
        let i = choose|i: int| 0 <= i < front.flat_map(f).len() && #[trigger] front.flat_map(f)[i] == x;
        assert(s.flat_map(f)[i] == x);
    }
}

/// Every element of the flat map comes from `f` of some item.
pub proof fn lemma_flat_map_member<A, B>(s: Seq<A>, f: spec_fn(A) -> Seq<B>, x: B)
    requires
        s.flat_map(f).contains(x),
    ensures
        exists|j: int| 0 <= j < s.len() && #[trigger] f(s[j]).contains(x),
    decreases s.len(),
{
    if s.len() == 0 {
        assert(s.flat_map(f) =~= Seq::<B>::empty()) by {
            reveal_with_fuel(Seq::flatten, 1);
        }
    } else {
        let front = s.drop_last();
        front.lemma_flat_map_push(f, s.last());
        assert(front.push(s.last()) =~= s);
        let i = choose|i: int| 0 <= i < s.flat_map(f).len() && #[trigger] s.flat_map(f)[i] == x;
        if i < front.flat_map(f).len() {
            assert(front.flat_map(f)[i] == x);
            lemma_flat_map_member(front, f, x);
            let j = choose|j: int| 0 <= j < front.len() && #[trigger] f(front[j]).contains(x);
            assert(front[j] == s[j]);
        } else {
            assert(f(s.last())[i - front.flat_map(f).len()] == x);
            assert(f(s[s.len() - 1]).contains(x));
        }
    }
}

/// A finding names a record of its kind whose attractor id is non-empty and
/// is no attractor's id.
pub open spec fn reported_link(
    stressors: Seq<Stressor>,
    purposes: Seq<Purpose>,
    attractors: Seq<Attractor>,
    x: (Seq<char>, Seq<char>, Seq<char>),
) -> bool {
    &&& x.2.len() > 0
    &&& forall|t: int| 0 <= t < attractors.len() ==> attractors[t].id@ != x.2
    &&& (x.0 == "stressor"@ && exists|j: int|
        0 <= j < stressors.len() && (#[trigger] stressors[j]).id@ == x.1 && stressors[j].attractor_id@ == x.2)
        || (x.0 == "purpose"@ && exists|j: int|
        0 <= j < purposes.len() && (#[trigger] purposes[j]).id@ == x.1 && purposes[j].attractor_id@ == x.2)
}

/// Every reported link dangles: it belongs to a stressor or purpose whose
/// non-empty attractor id no attractor has.
pub proof fn lemma_reported_links_dangle(
    stressors: Seq<Stressor>,
    purposes: Seq<Purpose>,
    attractors: Seq<Attractor>,
    x: (Seq<char>, Seq<char>, Seq<char>),
)
    requires
        link_findings(stressors, purposes, attractor_ids(attractors)).contains(x),
    ensures
        reported_link(stressors, purposes, attractors, x),
{
    let known = attractor_ids(attractors);
    let fs = |s: Stressor| link_finding("stressor"@, s.id@, s.attractor_id@, known);
    let fp = |p: Purpose| link_finding("purpose"@, p.id@, p.attractor_id@, known);
    let a = stressors.flat_map(fs);
    let b = purposes.flat_map(fp);
    let i = choose|i: int| 0 <= i < (a + b).len() && #[trigger] (a + b)[i] == x;
    if i < a.len() {
        assert(a[i] == x);
        lemma_flat_map_member(stressors, fs, x);
        let j = choose|j: int| 0 <= j < stressors.len() && #[trigger] fs(stressors[j]).contains(x);
        assert(fs(stressors[j]).len() > 0);
        assert(fs(stressors[j])[0] == x);
        assert(!known.contains(x.2));
    } else {
        assert(b[i - a.len()] == x);
        lemma_flat_map_member(purposes, fp, x);
        let j = choose|j: int| 0 <= j < purposes.len() && #[trigger] fp(purposes[j]).contains(x);
        assert(fp(purposes[j]).len() > 0);
        assert(fp(purposes[j])[0] == x);
        assert(!known.contains(x.2));
    }
    assert forall|t: int| 0 <= t < attractors.len() implies attractors[t].id@ != x.2 by {
        if attractors[t].id@ == x.2 {
            assert(known[t] == x.2);
        }
    }
}

/// A link that names no attractor is known is not among the attractor ids.
proof fn lemma_unknown_link(attractors: Seq<Attractor>, aid: Seq<char>)
    requires
        forall|t: int| 0 <= t < attractors.len() ==> attractors[t].id@ != aid,
    ensures
        !attractor_ids(attractors).contains(aid),
{
    if attractor_ids(attractors).contains(aid) {
        let t = choose|t: int| 0 <= t < attractor_ids(attractors).len() && #[trigger] attractor_ids(attractors)[t] == aid;
        assert(attractors[t].id@ == aid);
    }
}

/// A stressor linked to an attractor id that no attractor has is reported
/// as a dangling `stressor` link with that id.
pub proof fn lemma_dangling_stressor_link_reported(
    stressors: Seq<Stressor>,
    purposes: Seq<Purpose>,
    attractors: Seq<Attractor>,
    j: int,
)
    requires
        0 <= j < stressors.len(),
        stressors[j].attractor_id@.len() > 0,
        forall|t: int| 0 <= t < attractors.len() ==> attractors[t].id@ != stressors[j].attractor_id@,
    ensures
        link_findings(stressors, purposes, attractor_ids(attractors)).contains(
            ("stressor"@, stressors[j].id@, stressors[j].attractor_id@),
        ),
{
    let known = attractor_ids(attractors);
    lemma_unknown_link(attractors, stressors[j].attractor_id@);
    let fs = |s: Stressor| link_finding("stressor"@, s.id@, s.attractor_id@, known);
    let fp = |p: Purpose| link_finding("purpose"@, p.id@, p.attractor_id@, known);
    let x = ("stressor"@, stressors[j].id@, stressors[j].attractor_id@);
    assert(fs(stressors[j])[0] == x);
    lemma_flat_map_includes(stressors, fs, j, x);
    let i = choose|i: int| 0 <= i < stressors.flat_map(fs).len() && #[trigger] stressors.flat_map(fs)[i] == x;
    assert((stressors.flat_map(fs) + purposes.flat_map(fp))[i] == x);
}

/// A purpose linked to an attractor id that no attractor has is reported
/// as a dangling `purpose` link with that id.
pub proof fn lemma_dangling_purpose_link_reported(
    stressors: Seq<Stressor>,
    purposes: Seq<Purpose>,
    attractors: Seq<Attractor>,
    j: int,
)
    requires
        0 <= j < purposes.len(),
        purposes[j].attractor_id@.len() > 0,
        forall|t: int| 0 <= t < attractors.len() ==> attractors[t].id@ != purposes[j].attractor_id@,
    ensures
        link_findings(stressors, purposes, attractor_ids(attractors)).contains(
            ("purpose"@, purposes[j].id@, purposes[j].attractor_id@),
        ),
{
    let known = attractor_ids(attractors);
    lemma_unknown_link(attractors, purposes[j].attractor_id@);
    let fs = |s: Stressor| link_finding("stressor"@, s.id@, s.attractor_id@, known);
    let fp = |p: Purpose| link_finding("purpose"@, p.id@, p.attractor_id@, known);
    let x = ("purpose"@, purposes[j].id@, purposes[j].attractor_id@);
    assert(fp(purposes[j])[0] == x);
    lemma_flat_map_includes(purposes, fp, j, x);
    let i = choose|i: int| 0 <= i < purposes.flat_map(fp).len() && #[trigger] purposes.flat_map(fp)[i] == x;
    assert((stressors.flat_map(fs) + purposes.flat_map(fp))[stressors.flat_map(fs).len() + i] == x);
}

} // verus!
