//! Migration from the naive on-disk shapes to v3: the configuration, the
//! terminology (into the lexicon) and attractors (valence and phase state
//! into positive and negative states).

use vstd::prelude::*;

use crate::storage::config::{bool_text, render_body, v3_body, v3_header, v3_storage_table, StorageConfig};
use crate::storage::format::{csv_rows, decode_rows, field, field_of};
use crate::storage::terminology::Term as OldTerm;
use crate::structure::analysis::attractors::Attractor as V3Attractor;
use crate::structure::definition::lexicon::Term as LexiconTerm;
use crate::text::{
    contains_str, decimal, has_infix, lemma_has_infix_middle, lowercase, str_eq, to_lower, views,
};

verus! {

/// The result of migrating a naive configuration.
#[derive(Debug, Clone)]
pub struct MigratedV3 {
    pub format_version: String,
    pub storage: StorageConfig,
    /// The new `config.toml`.
    pub toml: String,
}

/// What a directory migration changed.
#[derive(Debug, Clone, Copy, PartialEq, Eq, Structural)]
pub struct MigrateReport {
    pub config_migrated: bool,
    /// Attractors written in the v3 shape.
    pub attractors: usize,
    /// Terms in the lexicon afterwards.
    pub lexicon_terms: usize,
}

impl Default for MigrateReport {
    fn default() -> (r: Self)
        ensures
            r.config_migrated == false,
            r.attractors == 0,
            r.lexicon_terms == 0,
    {
        MigrateReport { config_migrated: false, attractors: 0, lexicon_terms: 0 }
    }
}

/// The first line of a migrated configuration.
pub open spec fn migrated_header() -> Seq<char> {
    "# residual v3 configuration (migrated from naive)\n"@
}

/// Migrates the values a naive configuration holds (`[validation] strict`,
/// `[skills] token_warn`, defaults applied) to the v3 shape.
pub fn migrate_naive_values(strict: bool, token_warn: usize) -> (r: MigratedV3)
    ensures
        r.format_version@ == "v3"@,
        r.storage.format_version@ == "v3"@,
        r.storage.change_detection == true,
        r.storage.super_strict == strict,
        r.storage.token_warn == token_warn,
        r.storage.commit_msg_enforce == false,
        r.toml@ == migrated_header() + v3_body(r.storage),
{
    let storage = StorageConfig {
        format_version: String::from_str("v3"),
        change_detection: true,
        super_strict: strict,
        token_warn,
        commit_msg_enforce: false,
    };
    let mut toml = String::from_str("# residual v3 configuration (migrated from naive)\n");
    let body = render_body(&storage);
    toml.append(body.as_str());
    let format_version = storage.format_version.clone();
    MigratedV3 { format_version, storage, toml }
}

/// Whether a `config.toml` is already in the v3 shape.
pub open spec fn is_v3(raw: Seq<char>) -> bool {
    has_infix(raw, "format_version"@) || has_infix(raw, "[verification]"@) || has_infix(
        raw,
        "[storage]"@,
    )
}

/// Whether a `config.toml` is already in the v3 shape.
pub fn is_v3_config(raw: &str) -> (r: bool)
    ensures
        r == is_v3(raw@),
{
    contains_str(raw, "format_version") || contains_str(raw, "[verification]") || contains_str(
        raw,
        "[storage]",
    )
}

/// Rendered and migrated configurations are recognised as v3, so a second
/// migration leaves the configuration alone.
#[verifier::spinoff_prover]
pub proof fn lemma_rendered_config_is_v3(c: StorageConfig)
    ensures
        is_v3(v3_header() + v3_body(c)),
        is_v3(migrated_header() + v3_body(c)),
{
    let rest = "\nformat_version = \""@ + c.format_version@ + "\"\nchange_detection = "@ + bool_text(
        c.change_detection,
    ) + "\n\n[verification]\nsuper_strict = "@ + bool_text(c.super_strict)
        + "\ncommit_msg_enforce = "@ + bool_text(c.commit_msg_enforce)
        + "\n\n[skills]\ntoken_warn = "@ + decimal(c.token_warn as nat) + "\n"@;
    assert(v3_body(c) =~= v3_storage_table() + rest);
    assert(v3_header() + v3_body(c) =~= v3_header() + v3_storage_table() + rest);
    assert(migrated_header() + v3_body(c) =~= migrated_header() + v3_storage_table() + rest);
    lemma_has_infix_middle(v3_header(), v3_storage_table(), rest);
    lemma_has_infix_middle(migrated_header(), v3_storage_table(), rest);
}

/// The positive and negative states a naive attractor row migrates to,
/// given its valence word lower-cased.
pub open spec fn migrated_states(
    name: Seq<char>,
    valence: Seq<char>,
    description: Seq<char>,
    phase_state: Seq<char>,
) -> (Seq<char>, Seq<char>) {
    if valence == "positive"@ {
        (
            if phase_state.len() == 0 {
                description
            } else {
                phase_state
            },
            if description.len() == 0 {
                "(migrated) pressure fails for "@ + name
            } else {
                "(migrated) pressure fails when: "@ + description
            },
        )
    } else if valence == "negative"@ {
        (
            if description.len() == 0 {
                "(migrated) pressure holds for "@ + name
            } else {
                "(migrated) pressure holds when opposite of: "@ + description
            },
            if phase_state.len() == 0 {
                description
            } else {
                phase_state
            },
        )
    } else {
        (
            if phase_state.len() == 0 {
                "(migrated) positive state for "@ + name
            } else {
                phase_state
            },
            if description.len() == 0 {
                "(migrated) negative state for "@ + name
            } else {
                description
            },
        )
    }
}

fn prefixed(prefix: &str, s: &String) -> (r: String)
    ensures
        r@ == prefix@ + s@,
{
    let mut r = String::from_str(prefix);
    r.append(s.as_str());
    r
}

/// Migrates one naive attractor row (`valence` in any letter case).
pub fn migrate_attractor_row(
    id: String,
    name: String,
    valence: &str,
    description: String,
    phase_state: String,
) -> (r: V3Attractor)
    ensures
        r.id@ == id@,
        r.name@ == name@,
        r.description@ == description@,
        (r.positive_state@, r.negative_state@) == migrated_states(
            name@,
            lowercase(valence@),
            description@,
            phase_state@,
        ),
{
    let lower = to_lower(valence);
    let phase_empty = phase_state.as_str().unicode_len() == 0;
    let desc_empty = description.as_str().unicode_len() == 0;
    let (positive_state, negative_state) = if str_eq(lower.as_str(), "positive") {
        let pos = if phase_empty {
            description.clone()
        } else {
            phase_state
        };
        let neg = if desc_empty {
            prefixed("(migrated) pressure fails for ", &name)
        } else {
            prefixed("(migrated) pressure fails when: ", &description)
        };
        (pos, neg)
    } else if str_eq(lower.as_str(), "negative") {
        let neg = if phase_empty {
            description.clone()
        } else {
            phase_state
        };
        let pos = if desc_empty {
            prefixed("(migrated) pressure holds for ", &name)
        } else {
            prefixed("(migrated) pressure holds when opposite of: ", &description)
        };
        (pos, neg)
    } else {
        let pos = if phase_empty {
            prefixed("(migrated) positive state for ", &name)
        } else {
            phase_state
        };
        let neg = if desc_empty {
            prefixed("(migrated) negative state for ", &name)
        } else {
            description.clone()
        };
        (pos, neg)
    };
    V3Attractor { id, name, description, positive_state, negative_state }
}

/// The terms of the lexicon.
pub open spec fn lexicon_terms(lexicon: Seq<LexiconTerm>) -> Seq<Seq<char>> {
    lexicon.map_values(|t: LexiconTerm| t.term@)
}

/// An old terminology row as a lexicon term (related terms become aliases).
pub open spec fn as_lexicon_term(t: OldTerm) -> (Seq<char>, Seq<char>, Seq<char>, Seq<char>) {
    (t.term@, t.definition@, t.domain@, t.related_terms@)
}

/// A lexicon term's fields.
pub open spec fn lexicon_fields(t: LexiconTerm) -> (Seq<char>, Seq<char>, Seq<char>, Seq<char>) {
    (t.term@, t.definition@, t.domain@, t.aliases@)
}

/// The old rows whose term is not among `existing`, in order.
pub open spec fn new_terms(old: Seq<OldTerm>, existing: Seq<Seq<char>>) -> Seq<
    (Seq<char>, Seq<char>, Seq<char>, Seq<char>),
>
    decreases old.len(),
{
    if old.len() == 0 {
        Seq::empty()
    } else {
        let rest = new_terms(old.drop_last(), existing);
        if existing.contains(old.last().term@) {
            rest
        } else {
            rest.push(as_lexicon_term(old.last()))
        }
    }
}

/// Moves the terminology rows into the lexicon: each row whose term the
/// lexicon did not hold before is appended (rows are not checked against
/// each other). Returns how many were appended.
pub fn merge_terminology(lexicon: &mut Vec<LexiconTerm>, rows: &[OldTerm]) -> (added: usize)
    ensures
        final(lexicon)@.map_values(|t: LexiconTerm| lexicon_fields(t)) == old(lexicon)@.map_values(
            |t: LexiconTerm| lexicon_fields(t),
        ) + new_terms(rows@, lexicon_terms(old(lexicon)@)),
        added == new_terms(rows@, lexicon_terms(old(lexicon)@)).len(),
{
    let ghost start = lexicon@.map_values(|t: LexiconTerm| lexicon_fields(t));
    let ghost existing = lexicon_terms(lexicon@);
    let mut known: Vec<String> = Vec::new();
    let mut j: usize = 0;
    while j < lexicon.len()
        invariant
            j <= lexicon@.len(),
            lexicon@ == old(lexicon)@,
            existing == lexicon_terms(lexicon@),
            views(known@) == existing.take(j as int),
        decreases lexicon@.len() - j,
    {
        let ghost before = views(known@);
        known.push(lexicon[j].term.clone());
        assert(views(known@) =~= before.push(existing[j as int]));
        j = j + 1;
        assert(existing.take(j as int) =~= existing.take(j - 1).push(existing[j - 1]));
    }
    assert(existing.take(existing.len() as int) =~= existing);
    let mut added: usize = 0;
    let mut i: usize = 0;
    while i < rows.len()
        invariant
            i <= rows@.len(),
            views(known@) == existing,
            existing == lexicon_terms(old(lexicon)@),
            start == old(lexicon)@.map_values(|t: LexiconTerm| lexicon_fields(t)),
            lexicon@.map_values(|t: LexiconTerm| lexicon_fields(t)) == start + new_terms(
                rows@.take(i as int),
                existing,
            ),
            added == new_terms(rows@.take(i as int), existing).len(),
            added <= i,
        decreases rows@.len() - i,
    {
        let t = &rows[i];
        assert(rows@.take(i + 1).drop_last() =~= rows@.take(i as int));
        assert(rows@.take(i + 1).last() == rows@[i as int]);
        if !crate::text::contains_string(&known, &t.term) {
            let ghost before = lexicon@.map_values(|t: LexiconTerm| lexicon_fields(t));
            lexicon.push(
                LexiconTerm {
                    term: t.term.clone(),
                    definition: t.definition.clone(),
                    domain: t.domain.clone(),
                    aliases: t.related_terms.clone(),
                },
            );
            assert(lexicon@.map_values(|t: LexiconTerm| lexicon_fields(t)) =~= before.push(
                as_lexicon_term(rows@[i as int]),
            ));
            added = added + 1;
        }
        i = i + 1;
    }
    assert(rows@.take(rows@.len() as int) =~= rows@);
    added
}

/// The v3 attractors of a naive `attractors.csv` text (`id, name, valence,
/// description, phase_state` by position, missing fields empty), each row
/// migrated; `None` when the `csv` crate cannot read it.
pub fn migrate_naive_attractors(bytes: &[u8]) -> (r: Option<Vec<V3Attractor>>)
    ensures
        r is None <==> csv_rows(bytes@) is None,
        r matches Some(v) ==> csv_rows(bytes@) matches Some(rows) && v@.len() == rows.len()
            && forall|i: int|
            0 <= i < rows.len() ==> {
                let a = #[trigger] v@[i];
                &&& a.id@ == field(rows[i], 0)
                &&& a.name@ == field(rows[i], 1)
                &&& a.description@ == field(rows[i], 3)
                &&& (a.positive_state@, a.negative_state@) == migrated_states(
                    field(rows[i], 1),
                    lowercase(field(rows[i], 2)),
                    field(rows[i], 3),
                    field(rows[i], 4),
                )
            },
{
    match decode_rows(bytes) {
        None => None,
        Some(rows) => {
            let ghost rv = rows.deep_view();
            let mut out: Vec<V3Attractor> = Vec::new();
            let mut i: usize = 0;
            while i < rows.len()
                invariant
                    i <= rows@.len(),
                    rv == rows.deep_view(),
                    out@.len() == i,
                    forall|j: int|
                        0 <= j < i ==> {
                            let a = #[trigger] out@[j];
                            &&& a.id@ == field(rv[j], 0)
                            &&& a.name@ == field(rv[j], 1)
                            &&& a.description@ == field(rv[j], 3)
                            &&& (a.positive_state@, a.negative_state@) == migrated_states(
                                field(rv[j], 1),
                                lowercase(field(rv[j], 2)),
                                field(rv[j], 3),
                                field(rv[j], 4),
                            )
                        },
                decreases rows@.len() - i,
            {
                let row = &rows[i];
                assert(rv[i as int] == rows@[i as int].deep_view());
                let valence = field_of(row, 2);
                let a = migrate_attractor_row(
                    field_of(row, 0),
                    field_of(row, 1),
                    valence.as_str(),
                    field_of(row, 3),
                    field_of(row, 4),
                );
                out.push(a);
                i = i + 1;
            }
            Some(out)
        },
    }
}

} // verus!
