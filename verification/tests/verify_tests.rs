use residual::storage::purposes::Purpose;
use residual::storage::stressors::Stressor;
use residual::storage::terminology::{term_set, Term};
use residual::structure::analysis::attractors::Attractor;
use residual::structure::definition::lexicon::Term as LexiconTerm;
use residual::verify::{check_links, check_outcomes, outcome_uses_terminology, parse_outcome, OutcomeParts};

fn stressor(id: &str, attractor_id: &str, outcomes: &str) -> Stressor {
    Stressor {
        id: id.to_string(),
        shortname: String::new(),
        description: "test stressor".to_string(),
        attractor_id: attractor_id.to_string(),
        naive_change: "none".to_string(),
        outcomes: outcomes.to_string(),
        components_affected: "auth".to_string(),
    }
}

fn term(t: &str) -> Term {
    Term { term: t.to_string(), definition: "d".to_string(), domain: "core".to_string(), related_terms: String::new() }
}

#[test]
fn parse_outcome_basic() {
    let parts = parse_outcome("system handles auth via tokens").unwrap();
    assert_eq!(parts.subject, "system");
    assert_eq!(parts.verb, "handles");
    assert!(
        parts.predicates.iter().any(|p| p.contains("auth")),
        "predicates should contain 'auth', got {:?}",
        parts.predicates
    );
}

#[test]
fn parse_outcome_empty_returns_none() {
    assert!(parse_outcome("").is_none());
}

#[test]
fn parse_outcome_joins_the_rest_with_single_spaces() {
    let parts = parse_outcome("  a\tb  c   d ").unwrap();
    assert_eq!(parts.predicates, vec!["c d".to_string()]);
    assert!(parse_outcome("only two").is_none());
}

#[test]
fn outcome_uses_terminology_match() {
    let parts = OutcomeParts {
        subject: "system".to_string(),
        verb: "handles".to_string(),
        predicates: vec!["auth".to_string()],
    };
    let terms = vec!["auth".to_string()];
    assert!(outcome_uses_terminology(&parts, &terms));
}

#[test]
fn outcome_uses_terminology_no_match() {
    let parts = OutcomeParts {
        subject: "system".to_string(),
        verb: "does".to_string(),
        predicates: vec!["something".to_string()],
    };
    let terms = vec!["auth".to_string()];
    assert!(!outcome_uses_terminology(&parts, &terms));
}

#[test]
fn check_outcomes_empty_terminology_does_not_error() {
    let violations = check_outcomes(&[stressor("S-01", "A-01", "system handles auth")], &[], &[], &[]);
    assert_eq!(violations.len(), 1);
}

#[test]
fn check_outcomes_valid_outcome_no_violations() {
    let violations = check_outcomes(&[stressor("S-01", "A-01", "system handles auth")], &[], &[term("auth")], &[]);
    assert!(violations.is_empty(), "expected no violations for valid outcome");
}

#[test]
fn check_outcomes_no_matching_term_is_violation() {
    let violations = check_outcomes(&[stressor("S-01", "A-01", "widget frobs blorple")], &[], &[term("auth")], &[]);
    assert!(!violations.is_empty(), "expected violation for outcome with no terminology match");
    assert_eq!(violations[0].reason, "no word in this outcome matches the project terminology");
    assert_eq!(violations[0].source, "stressor");
}

#[test]
fn check_outcomes_splits_fields_and_reports_short_ones() {
    let p = Purpose {
        id: "P-01".to_string(),
        shortname: String::new(),
        description: String::new(),
        attractor_id: String::new(),
        naive_change: String::new(),
        outcomes: " Auth works well |  | too short".to_string(),
        components: String::new(),
    };
    let violations = check_outcomes(&[], &[p], &[term("AUTH")], &[]);
    assert_eq!(violations.len(), 1);
    assert_eq!(violations[0].outcome_str, "too short");
    assert_eq!(violations[0].reason, "outcome must have at least subject verb predicate (3 words)");
    assert_eq!(term_set(&[term("AUTH")]), vec!["auth".to_string()]);
}

#[test]
fn check_links_missing_attractor_is_violation() {
    let violations = check_links(&[stressor("S-01", "A-99", "system does x")], &[], &[]);
    assert!(!violations.is_empty(), "expected violation for nonexistent attractor");
    assert_eq!(violations[0].missing_attractor_id, "A-99");
}

#[test]
fn check_links_existing_attractor_no_violation() {
    let a = Attractor::new("A-01", "Stability", "active", "unstable");
    let violations = check_links(&[stressor("S-01", "A-01", "system does x")], &[], &[a]);
    assert!(violations.is_empty(), "expected no violations when attractor exists");
}

#[test]
fn check_links_ignores_empty_links() {
    assert!(check_links(&[stressor("S-01", "", "x y z")], &[], &[]).is_empty());
}

fn lexicon(term: &str, aliases: &str) -> LexiconTerm {
    LexiconTerm { term: term.to_string(), definition: "d".to_string(), domain: "core".to_string(), aliases: aliases.to_string() }
}

#[test]
fn s12_outcome_accepts_lexicon_alias_word() {
    let s = stressor("S-99", "A-01", "operator defines families correctly");
    assert!(check_outcomes(&[s], &[], &[], &[lexicon("family", "families")]).is_empty());
}

#[test]
fn s12_outcome_accepts_hyphenated_lexicon_alias() {
    let s = stressor("S-99", "A-01", "operator records hyphenated-example usage");
    assert!(check_outcomes(&[s], &[], &[], &[lexicon("example", "hyphenated-example|example-with-dash")]).is_empty());
}

#[test]
fn s12_outcome_accepts_multi_word_phrase_alias() {
    let s = stressor("S-99", "A-01", "operator cites this example has a dash in it here");
    assert!(check_outcomes(&[s], &[], &[], &[lexicon("example", "this example has a dash in it")]).is_empty());
}

#[test]
fn s12_outcome_accepts_lexicon_related_term_alias() {
    let s = stressor("S-99", "A-01", "operator defines families correctly");
    assert!(check_outcomes(&[s], &[], &[], &[lexicon("family", "families")]).is_empty());
    let t = Term {
        term: "family".to_string(),
        definition: "d".to_string(),
        domain: "core".to_string(),
        related_terms: "families".to_string(),
    };
    let s2 = stressor("S-98", "A-01", "operator defines families correctly");
    assert!(check_outcomes(&[s2], &[], &[t], &[]).is_empty());
}

#[test]
fn phrases_match_inside_words() {
    let s = stressor("S-01", "A-01", "operator handles AUTHENTICATION flows");
    assert!(check_outcomes(&[s], &[], &[term("auth")], &[]).is_empty());
    let s = stressor("S-02", "A-01", "operator handles login flows");
    assert_eq!(check_outcomes(&[s], &[], &[term("auth")], &[]).len(), 1);
}
