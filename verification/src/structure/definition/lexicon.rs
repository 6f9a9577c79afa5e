//! The lexicon: terms and their aliases. Continuity rule: every force's
//! shortname and each of its outcomes mention at least one term.

use vstd::prelude::*;

use crate::structure::analysis::force::Force;
use crate::text::{
    contains_str, decimal, decimal_string, has_infix, lowercase, split, split_str, to_lower,
    trim, trim_str, views,
};

verus! {

/// One row of `lexicon.csv`.
#[derive(Debug, PartialEq, Eq)]
pub struct Term {
    pub term: String,
    pub definition: String,
    pub domain: String,
    /// Alternative spellings, separated by `|`.
    pub aliases: String,
}

impl Clone for Term {
    fn clone(&self) -> (r: Self)
        ensures
            r == *self,
    {
        Term {
            term: self.term.clone(),
            definition: self.definition.clone(),
            domain: self.domain.clone(),
            aliases: self.aliases.clone(),
        }
    }
}

impl Term {
    /// A term with no domain and no aliases.
    pub fn new(term: &str, definition: &str) -> (r: Term)
        ensures
            r.term@ == term@,
            r.definition@ == definition@,
            r.domain@ == Seq::<char>::empty(),
            r.aliases@ == Seq::<char>::empty(),
    {
        Term {
            term: String::from_str(term),
            definition: String::from_str(definition),
            domain: String::new(),
            aliases: String::new(),
        }
    }
}

/// The (lower-cased) text mentions the term: the term is not empty and the
/// text contains it, or one of its non-blank aliases, case-folded.
pub open spec fn mentions(lower_text: Seq<char>, t: Term) -> bool {
    let term = lowercase(t.term@);
    let pieces = split(t.aliases@, '|');
    term.len() > 0 && (has_infix(lower_text, term) || exists|k: int|
        0 <= k < pieces.len() && trim(#[trigger] pieces[k]).len() > 0 && has_infix(
            lower_text,
            lowercase(trim(pieces[k])),
        ))
}

/// The text mentions some term of the lexicon.
pub open spec fn uses_lexicon(text: Seq<char>, terms: Seq<Term>) -> bool {
    exists|k: int| 0 <= k < terms.len() && mentions(lowercase(text), #[trigger] terms[k])
}

fn mentions_exec(lower_text: &String, t: &Term) -> (r: bool)
    ensures
        r == mentions(lower_text@, *t),
{
    let term = to_lower(t.term.as_str());
    if term.as_str().unicode_len() == 0 {
        return false;
    }
    if contains_str(lower_text.as_str(), term.as_str()) {
        return true;
    }
    let pieces = split_str(t.aliases.as_str(), '|');
    let mut k: usize = 0;
    while k < pieces.len()
        invariant
            k <= pieces@.len(),
            lowercase(t.term@).len() > 0,
            views(pieces@) == split(t.aliases@, '|'),
            forall|j: int| 0 <= j < k ==> !(trim(#[trigger] views(pieces@)[j]).len() > 0 && has_infix(
                lower_text@,
                lowercase(trim(views(pieces@)[j])),
            )),
        decreases pieces@.len() - k,
    {
        let a = trim_str(pieces[k].as_str());
        assert(views(pieces@)[k as int] == pieces@[k as int]@);
        if a.as_str().unicode_len() > 0 {
            let la = to_lower(a.as_str());
            if contains_str(lower_text.as_str(), la.as_str()) {
                assert(split(t.aliases@, '|')[k as int] == views(pieces@)[k as int]);
                return true;
            }
        }
        k = k + 1;
    }
    false
}

fn text_uses_term(text: &String, terms: &[Term]) -> (r: bool)
    ensures
        r == uses_lexicon(text@, terms@),
{
    let lower = to_lower(text.as_str());
    let mut k: usize = 0;
    while k < terms.len()
        invariant
            k <= terms@.len(),
            lower@ == lowercase(text@),
            forall|j: int| 0 <= j < k ==> !mentions(lower@, #[trigger] terms@[j]),
        decreases terms@.len() - k,
    {
        if mentions_exec(&lower, &terms[k]) {
            return true;
        }
        k = k + 1;
    }
    false
}

/// Where a force breaks lexicon continuity.
#[derive(Debug)]
pub enum LexiconGap {
    /// The shortname mentions no term.
    Shortname { force_id: String, shortname: String },
    /// The outcome at `index` mentions no term.
    Outcome { force_id: String, index: usize, outcome: String },
}

impl LexiconGap {
    /// The message the CLI reports.
    pub fn message(&self) -> (r: String)
        ensures
            r@ == match *self {
                LexiconGap::Shortname { force_id, shortname } => "force '"@ + force_id@
                    + "' shortname '"@ + shortname@ + "' must contain ≥1 terminology word"@,
                LexiconGap::Outcome { force_id, index, outcome } => "force '"@ + force_id@
                    + "' outcome["@ + decimal(index as nat) + "] must contain ≥1 terminology word: '"@
                    + outcome@ + "'"@,
            },
    {
        match self {
            LexiconGap::Shortname { force_id, shortname } => {
                let mut r = String::from_str("force '");
                r.append(force_id.as_str());
                r.append("' shortname '");
                r.append(shortname.as_str());
                r.append("' must contain ≥1 terminology word");
                r
            },
            LexiconGap::Outcome { force_id, index, outcome } => {
                let mut r = String::from_str("force '");
                r.append(force_id.as_str());
                r.append("' outcome[");
                let digits = decimal_string(*index as u64);
                r.append(digits.as_str());
                r.append("] must contain ≥1 terminology word: '");
                r.append(outcome.as_str());
                r.append("'");
                r
            },
        }
    }
}

/// Lexicon continuity: the shortname and every outcome mention a term. The
/// first gap found (shortname first, then outcomes in order) is reported.
pub fn check_force_lexicon_continuity(force: &Force, terms: &[Term]) -> (r: Result<(), LexiconGap>)
    ensures
        r is Ok <==> uses_lexicon(force.shortname@, terms@) && forall|i: int|
            0 <= i < force.outcomes@.len() ==> uses_lexicon(#[trigger] force.outcomes@[i]@, terms@),
        r matches Err(LexiconGap::Shortname { force_id, shortname }) ==> !uses_lexicon(
            force.shortname@,
            terms@,
        ) && force_id@ == force.id@ && shortname@ == force.shortname@,
        r matches Err(LexiconGap::Outcome { force_id, index, outcome }) ==> uses_lexicon(
            force.shortname@,
            terms@,
        ) && index < force.outcomes@.len() && !uses_lexicon(force.outcomes@[index as int]@, terms@)
            && (forall|i: int| 0 <= i < index ==> uses_lexicon(#[trigger] force.outcomes@[i]@, terms@))
            && force_id@ == force.id@ && outcome@ == force.outcomes@[index as int]@,
{
    if !text_uses_term(&force.shortname, terms) {
        return Err(
            LexiconGap::Shortname { force_id: force.id.clone(), shortname: force.shortname.clone() },
        );
    }
    let mut i: usize = 0;
    while i < force.outcomes.len()
        invariant
            i <= force.outcomes@.len(),
            uses_lexicon(force.shortname@, terms@),
            forall|j: int| 0 <= j < i ==> uses_lexicon(#[trigger] force.outcomes@[j]@, terms@),
        decreases force.outcomes@.len() - i,
    {
        if !text_uses_term(&force.outcomes[i], terms) {
            return Err(
                LexiconGap::Outcome {
                    force_id: force.id.clone(),
                    index: i,
                    outcome: force.outcomes[i].clone(),
                },
            );
        }
        i = i + 1;
    }
    Ok(())
}

} // verus!
