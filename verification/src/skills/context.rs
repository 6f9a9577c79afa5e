//! The context `skill data` hands an agent: the captured ledger, filtered to
//! what the skill needs, with the verify status and the NKP summary.

use vstd::prelude::*;

use crate::nkp::matrix::{all_tokens, component_tokens, first_seen, lemma_first_seen_distinct, lemma_first_seen_members, tokens};
use crate::storage::config::bool_text;
use crate::storage::format::nonempty_pieces;
use crate::storage::personas::{check_personas_adequacy, min_personas, Persona, PersonaShortfall};
use crate::storage::purposes::Purpose;
use crate::storage::stressors::Stressor;
use crate::structure::analysis::attractors::Attractor;
use crate::structure::definition::lexicon::Term as LexiconTerm;
use crate::text::{contains_string, decimal, decimal_string, str_eq, views};
use crate::storage::terminology::{index_entries, index_word_set, phrases_of, Term};
use crate::verify::{
    attractor_ids, check_links, check_outcomes, lemma_flat_map_includes, lemma_flat_map_member, link_findings, link_views,
    outcome_findings, violation_views,
    LinkViolation, OutcomeViolation,
};

verus! {

/// Which tables a skill's context carries.
#[derive(Debug, Clone, Copy, PartialEq, Eq, Structural)]
pub struct Sections {
    pub attractors: bool,
    pub stressors: bool,
    pub purposes: bool,
    pub terminology: bool,
    pub personas: bool,
    pub nkp: bool,
}

/// The tables of each skill; an unknown skill gets all of them.
pub open spec fn sections_of(skill: Seq<char>) -> Sections {
    if skill == "purpose-walk"@ {
        Sections { attractors: true, stressors: false, purposes: true, terminology: true, personas: false, nkp: false }
    } else if skill == "stressor-walk"@ {
        Sections { attractors: true, stressors: true, purposes: true, terminology: true, personas: true, nkp: false }
    } else if skill == "integrate"@ {
        Sections { attractors: true, stressors: true, purposes: true, terminology: true, personas: false, nkp: true }
    } else if skill == "fmea"@ || skill == "atam"@ {
        Sections { attractors: true, stressors: true, purposes: true, terminology: true, personas: true, nkp: true }
    } else if skill == "naive-draft"@ {
        Sections { attractors: false, stressors: false, purposes: true, terminology: true, personas: false, nkp: false }
    } else {
        Sections { attractors: true, stressors: true, purposes: true, terminology: true, personas: true, nkp: true }
    }
}

/// The tables of a skill's context.
pub fn sections_for(skill: &str) -> (r: Sections)
    ensures
        r == sections_of(skill@),
{
    if str_eq(skill, "purpose-walk") {
        Sections { attractors: true, stressors: false, purposes: true, terminology: true, personas: false, nkp: false }
    } else if str_eq(skill, "stressor-walk") {
        Sections { attractors: true, stressors: true, purposes: true, terminology: true, personas: true, nkp: false }
    } else if str_eq(skill, "integrate") {
        Sections { attractors: true, stressors: true, purposes: true, terminology: true, personas: false, nkp: true }
    } else if str_eq(skill, "fmea") || str_eq(skill, "atam") {
        Sections { attractors: true, stressors: true, purposes: true, terminology: true, personas: true, nkp: true }
    } else if str_eq(skill, "naive-draft") {
        Sections { attractors: false, stressors: false, purposes: true, terminology: true, personas: false, nkp: false }
    } else {
        Sections { attractors: true, stressors: true, purposes: true, terminology: true, personas: true, nkp: true }
    }
}

/// The ledger a context is built from.
#[derive(Debug)]
pub struct ContextData {
    pub attractors: Vec<Attractor>,
    pub stressors: Vec<Stressor>,
    pub purposes: Vec<Purpose>,
    pub terms: Vec<LexiconTerm>,
    pub personas: Vec<Persona>,
}

/// The texts joined in order.
pub open spec fn concat_all(parts: Seq<Seq<char>>) -> Seq<char>
    decreases parts.len(),
{
    if parts.len() == 0 {
        Seq::<char>::empty()
    } else {
        concat_all(parts.drop_last()) + parts.last()
    }
}

pub open spec fn attractor_row(a: Attractor) -> Seq<char> {
    "| "@ + a.id@ + " | "@ + a.name@ + " | "@ + a.positive_state@ + " | "@ + a.negative_state@ + " |\n"@
}

pub open spec fn stressor_row(s: Stressor) -> Seq<char> {
    "| "@ + s.id@ + " | "@ + s.description@ + " | "@ + s.attractor_id@ + " | "@ + s.components_affected@
        + " |\n"@
}

pub open spec fn purpose_row(p: Purpose) -> Seq<char> {
    "| "@ + p.id@ + " | "@ + p.description@ + " | "@ + p.attractor_id@ + " | "@ + p.naive_change@
        + " | "@ + p.outcomes@ + " |\n"@
}

pub open spec fn term_row(t: LexiconTerm) -> Seq<char> {
    "| "@ + t.term@ + " | "@ + t.definition@ + " |\n"@
}

pub open spec fn persona_line(p: Persona) -> Seq<char> {
    "- "@ + p.name@ + " (role: "@ + p.role@ + ")\n"@
}

/// The attractors table.
pub open spec fn attractors_section(attractors: Seq<Attractor>) -> Seq<char> {
    "## Attractors\n| id | name | positive_state | negative_state |\n|---|---|---|---|\n"@ + concat_all(
        attractors.map_values(|a: Attractor| attractor_row(a)),
    ) + "\n"@
}

/// The stressors table.
pub open spec fn stressors_section(stressors: Seq<Stressor>) -> Seq<char> {
    "## Stressors\n| id | description | attractor_id | components |\n|---|---|---|---|\n"@ + concat_all(
        stressors.map_values(|s: Stressor| stressor_row(s)),
    ) + "\n"@
}

/// The purposes table.
pub open spec fn purposes_section(purposes: Seq<Purpose>) -> Seq<char> {
    "## Purposes\n| id | description | attractor_id | naive_change | outcomes |\n|---|---|---|---|---|\n"@
        + concat_all(purposes.map_values(|p: Purpose| purpose_row(p))) + "\n"@
}

/// The terminology table.
pub open spec fn terminology_section(terms: Seq<LexiconTerm>) -> Seq<char> {
    "## Terminology\n| term | definition |\n|---|---|\n"@ + concat_all(
        terms.map_values(|t: LexiconTerm| term_row(t)),
    ) + "\n"@
}

/// The personas list.
pub open spec fn personas_section(personas: Seq<Persona>) -> Seq<char> {
    "## Personas\n"@ + (if personas.len() == 0 {
        "none\n"@
    } else {
        concat_all(personas.map_values(|p: Persona| persona_line(p)))
    }) + "\n"@
}

/// The NKP summary (`k_per_n` already formatted to two decimals).
pub open spec fn nkp_section(n: nat, k: nat, k_per_n: Seq<char>) -> Seq<char> {
    "## NKP Summary\nN="@ + decimal(n) + ", K="@ + decimal(k) + ", K/N="@ + k_per_n + "\n\n"@
}

/// The fluent-capture preamble.
pub open spec fn fluent_section() -> Seq<char> {
    "## Fluent capture\nMetadata (`residual add stressor|purpose|attractor|term|persona`) works in **any order**, at **any phase**, without invoking a skill. Skills are **selectable analytical lenses** — not mandatory gates. `verify all` enforces structure, not ceremony order.\n\n"@
}

/// Skills that are reminded of whole-system residue.
pub open spec fn mentions_whole_system(skill: Seq<char>) -> bool {
    skill == "stressor-walk"@ || skill == "fmea"@ || skill == "integrate"@
}

/// The whole-system-residue reminder.
pub open spec fn whole_system_section() -> Seq<char> {
    "## Whole-system-residue\nExamine **whole-system-residue** (hardware, process, organization, policy zig) before defaulting to a software-only patch. Use `--whole-system --notes` when the surviving change leaves the software boundary.\n\n"@
}

/// Skills whose context warns about too few personas.
pub open spec fn checks_personas(skill: Seq<char>) -> bool {
    skill == "stressor-walk"@ || skill == "fmea"@ || skill == "atam"@
}

/// The persona note for `count` personas (empty when there are enough).
pub open spec fn persona_note(count: nat) -> Seq<char> {
    if count < min_personas() {
        "> **Persona note:** "@ + "at least 2 personas are needed, found "@ + decimal(count)
            + " — add personas when ready; capture is not blocked.\n\n"@
    } else {
        Seq::<char>::empty()
    }
}

/// A section when `on`, nothing otherwise.
pub open spec fn when(on: bool, text: Seq<char>) -> Seq<char> {
    if on {
        text
    } else {
        Seq::<char>::empty()
    }
}

/// The whole context of `skill` for the ledger.
pub open spec fn context_text(
    attractors: Seq<Attractor>,
    stressors: Seq<Stressor>,
    purposes: Seq<Purpose>,
    terms: Seq<LexiconTerm>,
    personas: Seq<Persona>,
    skill: Seq<char>,
    verify_status: Seq<char>,
    n: nat,
    k: nat,
    k_per_n: Seq<char>,
) -> Seq<char> {
    let s = sections_of(skill);
    "# Residual Context — "@ + skill + "\n\n"@ + verify_status + fluent_section() + when(
        mentions_whole_system(skill),
        whole_system_section(),
    ) + when(s.personas && checks_personas(skill), persona_note(personas.len()))
        + when(s.attractors, attractors_section(attractors))
        + when(s.stressors, stressors_section(stressors))
        + when(s.purposes, purposes_section(purposes))
        + when(s.terminology, terminology_section(terms))
        + when(s.personas, personas_section(personas))
        + when(s.nkp, nkp_section(n, k, k_per_n))
}

fn push_attractors(out: &mut String, attractors: &[Attractor])
    ensures
        final(out)@ == old(out)@ + attractors_section(attractors@),
{
    out.append("## Attractors\n| id | name | positive_state | negative_state |\n|---|---|---|---|\n");
    let ghost start = out@;
    let mut i: usize = 0;
    while i < attractors.len()
        invariant
            i <= attractors@.len(),
            out@ == start + concat_all(attractors@.take(i as int).map_values(|a: Attractor| attractor_row(a))),
        decreases attractors@.len() - i,
    {
        let a = &attractors[i];
        let mut row = String::from_str("| ");
        row.append(a.id.as_str());
        row.append(" | ");
        row.append(a.name.as_str());
        row.append(" | ");
        row.append(a.positive_state.as_str());
        row.append(" | ");
        row.append(a.negative_state.as_str());
        row.append(" |\n");
        out.append(row.as_str());
        i = i + 1;
        assert(out@ =~= start + (concat_all(attractors@.take(i - 1).map_values(|a: Attractor| attractor_row(a))) + row@));
        assert(attractors@.take(i as int).map_values(|a: Attractor| attractor_row(a)).drop_last()
            =~= attractors@.take(i - 1).map_values(|a: Attractor| attractor_row(a)));
    }
    assert(attractors@.take(attractors@.len() as int) =~= attractors@);
    out.append("\n");
}

fn push_stressors(out: &mut String, stressors: &[Stressor])
    ensures
        final(out)@ == old(out)@ + stressors_section(stressors@),
{
    out.append("## Stressors\n| id | description | attractor_id | components |\n|---|---|---|---|\n");
    let ghost start = out@;
    let mut i: usize = 0;
    while i < stressors.len()
        invariant
            i <= stressors@.len(),
            out@ == start + concat_all(stressors@.take(i as int).map_values(|s: Stressor| stressor_row(s))),
        decreases stressors@.len() - i,
    {
        let s = &stressors[i];
        let mut row = String::from_str("| ");
        row.append(s.id.as_str());
        row.append(" | ");
        row.append(s.description.as_str());
        row.append(" | ");
        row.append(s.attractor_id.as_str());
        row.append(" | ");
        row.append(s.components_affected.as_str());
        row.append(" |\n");
        out.append(row.as_str());
        i = i + 1;
        assert(out@ =~= start + (concat_all(stressors@.take(i - 1).map_values(|s: Stressor| stressor_row(s))) + row@));
        assert(stressors@.take(i as int).map_values(|s: Stressor| stressor_row(s)).drop_last()
            =~= stressors@.take(i - 1).map_values(|s: Stressor| stressor_row(s)));
    }
    assert(stressors@.take(stressors@.len() as int) =~= stressors@);
    out.append("\n");
}

fn push_purposes(out: &mut String, purposes: &[Purpose])
    ensures
        final(out)@ == old(out)@ + purposes_section(purposes@),
{
    out.append("## Purposes\n| id | description | attractor_id | naive_change | outcomes |\n|---|---|---|---|---|\n");
    let ghost start = out@;
    let mut i: usize = 0;
    while i < purposes.len()
        invariant
            i <= purposes@.len(),
            out@ == start + concat_all(purposes@.take(i as int).map_values(|p: Purpose| purpose_row(p))),
        decreases purposes@.len() - i,
    {
        let p = &purposes[i];
        let mut row = String::from_str("| ");
        row.append(p.id.as_str());
        row.append(" | ");
        row.append(p.description.as_str());
        row.append(" | ");
        row.append(p.attractor_id.as_str());
        row.append(" | ");
        row.append(p.naive_change.as_str());
        row.append(" | ");
        row.append(p.outcomes.as_str());
        row.append(" |\n");
        out.append(row.as_str());
        i = i + 1;
        assert(out@ =~= start + (concat_all(purposes@.take(i - 1).map_values(|p: Purpose| purpose_row(p))) + row@));
        assert(purposes@.take(i as int).map_values(|p: Purpose| purpose_row(p)).drop_last()
            =~= purposes@.take(i - 1).map_values(|p: Purpose| purpose_row(p)));
    }
    assert(purposes@.take(purposes@.len() as int) =~= purposes@);
    out.append("\n");
}

fn push_terms(out: &mut String, terms: &[LexiconTerm])
    ensures
        final(out)@ == old(out)@ + terminology_section(terms@),
{
    out.append("## Terminology\n| term | definition |\n|---|---|\n");
    let ghost start = out@;
    let mut i: usize = 0;
    while i < terms.len()
        invariant
            i <= terms@.len(),
            out@ == start + concat_all(terms@.take(i as int).map_values(|t: LexiconTerm| term_row(t))),
        decreases terms@.len() - i,
    {
        let t = &terms[i];
        let mut row = String::from_str("| ");
        row.append(t.term.as_str());
        row.append(" | ");
        row.append(t.definition.as_str());
        row.append(" |\n");
        out.append(row.as_str());
        i = i + 1;
        assert(out@ =~= start + (concat_all(terms@.take(i - 1).map_values(|t: LexiconTerm| term_row(t))) + row@));
        assert(terms@.take(i as int).map_values(|t: LexiconTerm| term_row(t)).drop_last()
            =~= terms@.take(i - 1).map_values(|t: LexiconTerm| term_row(t)));
    }
    assert(terms@.take(terms@.len() as int) =~= terms@);
    out.append("\n");
}

fn push_personas(out: &mut String, personas: &[Persona])
    ensures
        final(out)@ == old(out)@ + personas_section(personas@),
{
    out.append("## Personas\n");
    if personas.len() == 0 {
        out.append("none\n");
    } else {
        let ghost start = out@;
        let mut i: usize = 0;
        while i < personas.len()
            invariant
                i <= personas@.len(),
                out@ == start + concat_all(personas@.take(i as int).map_values(|p: Persona| persona_line(p))),
            decreases personas@.len() - i,
        {
            let p = &personas[i];
            let mut line = String::from_str("- ");
            line.append(p.name.as_str());
            line.append(" (role: ");
            line.append(p.role.as_str());
            line.append(")\n");
            out.append(line.as_str());
            i = i + 1;
            assert(out@ =~= start + (concat_all(personas@.take(i - 1).map_values(|p: Persona| persona_line(p))) + line@));
            assert(personas@.take(i as int).map_values(|p: Persona| persona_line(p)).drop_last()
                =~= personas@.take(i - 1).map_values(|p: Persona| persona_line(p)));
        }
        assert(personas@.take(personas@.len() as int) =~= personas@);
    }
    out.append("\n");
}

fn part(on: bool, text: String) -> (r: String)
    ensures
        r@ == when(on, text@),
{
    if on {
        text
    } else {
        String::new()
    }
}

fn whole_system_text() -> (r: String)
    ensures
        r@ == whole_system_section(),
{
    String::from_str("## Whole-system-residue\nExamine **whole-system-residue** (hardware, process, organization, policy zig) before defaulting to a software-only patch. Use `--whole-system --notes` when the surviving change leaves the software boundary.\n\n")
}

fn persona_note_text(count: usize) -> (r: String)
    ensures
        r@ == persona_note(count as nat),
{
    if count < 2 {
        let mut out = String::from_str("> **Persona note:** ");
        out.append("at least 2 personas are needed, found ");
        let d = decimal_string(count as u64);
        out.append(d.as_str());
        out.append(" — add personas when ready; capture is not blocked.\n\n");
        out
    } else {
        String::new()
    }
}

fn nkp_text(n: usize, k: usize, k_per_n: &str) -> (r: String)
    ensures
        r@ == nkp_section(n as nat, k as nat, k_per_n@),
{
    let mut out = String::from_str("## NKP Summary\nN=");
    let dn = decimal_string(n as u64);
    out.append(dn.as_str());
    out.append(", K=");
    let dk = decimal_string(k as u64);
    out.append(dk.as_str());
    out.append(", K/N=");
    out.append(k_per_n);
    out.append("\n\n");
    out
}

/// Builds the context of `skill` from the ledger, the verify-status section
/// (see `verify_status_section`) and the ledger's NKP counts (see
/// `nkp_counts`) with K/N formatted to two decimals.
pub fn build(
    data: &ContextData,
    skill: &str,
    verify_status: &str,
    n: usize,
    k: usize,
    k_per_n: &str,
) -> (r: String)
    requires
        n == data.stressors@.len() + ledger_components(data.stressors@, data.purposes@).len(),
        k == ledger_connections(data.stressors@),
    ensures
        r@ == context_text(
            data.attractors@,
            data.stressors@,
            data.purposes@,
            data.terms@,
            data.personas@,
            skill@,
            verify_status@,
            n as nat,
            k as nat,
            k_per_n@,
        ),
{
    let s = sections_for(skill);
    let ws = part(
        str_eq(skill, "stressor-walk") || str_eq(skill, "fmea") || str_eq(skill, "integrate"),
        whole_system_text(),
    );
    let note = part(
        s.personas && (str_eq(skill, "stressor-walk") || str_eq(skill, "fmea") || str_eq(skill, "atam")),
        persona_note_text(data.personas.len()),
    );
    let mut at = String::new();
    push_attractors(&mut at, data.attractors.as_slice());
    let at = part(s.attractors, at);
    let mut st = String::new();
    push_stressors(&mut st, data.stressors.as_slice());
    let st = part(s.stressors, st);
    let mut pu = String::new();
    push_purposes(&mut pu, data.purposes.as_slice());
    let pu = part(s.purposes, pu);
    let mut te = String::new();
    push_terms(&mut te, data.terms.as_slice());
    let te = part(s.terminology, te);
    let mut pe = String::new();
    push_personas(&mut pe, data.personas.as_slice());
    let pe = part(s.personas, pe);
    let nk = part(s.nkp, nkp_text(n, k, k_per_n));
    let mut out = String::from_str("# Residual Context — ");
    out.append(skill);
    out.append("\n\n");
    out.append(verify_status);
    out.append("## Fluent capture\nMetadata (`residual add stressor|purpose|attractor|term|persona`) works in **any order**, at **any phase**, without invoking a skill. Skills are **selectable analytical lenses** — not mandatory gates. `verify all` enforces structure, not ceremony order.\n\n");
    out.append(ws.as_str());
    out.append(note.as_str());
    out.append(at.as_str());
    out.append(st.as_str());
    out.append(pu.as_str());
    out.append(te.as_str());
    out.append(pe.as_str());
    out.append(nk.as_str());
    out
}

/// Every component token of the purposes' `components` fields.
pub open spec fn purpose_tokens(purposes: Seq<Purpose>) -> Seq<Seq<char>> {
    purposes.flat_map(|p: Purpose| tokens(p.components@))
}

/// The distinct components the ledger names, stressors' then purposes'.
pub open spec fn ledger_components(stressors: Seq<Stressor>, purposes: Seq<Purpose>) -> Seq<Seq<char>> {
    first_seen(all_tokens(stressors) + purpose_tokens(purposes))
}

/// K of the summary: the non-empty component tokens of the stressors.
pub open spec fn ledger_connections(stressors: Seq<Stressor>) -> nat {
    nonempty_pieces(all_tokens(stressors)).len()
}

/// N counts each component once: the ledger's components are distinct, and
/// a text is one of them exactly when it is a non-empty component token of
/// some stressor or some purpose.
pub proof fn lemma_ledger_components(stressors: Seq<Stressor>, purposes: Seq<Purpose>, t: Seq<char>)
    ensures
        ledger_components(stressors, purposes).no_duplicates(),
        ledger_components(stressors, purposes).contains(t) <==> t.len() > 0 && ((exists|j: int|
            0 <= j < stressors.len() && #[trigger] tokens(stressors[j].components_affected@).contains(t)) || (exists|j: int|
            0 <= j < purposes.len() && #[trigger] tokens(purposes[j].components@).contains(t))),
{
    let toks = all_tokens(stressors) + purpose_tokens(purposes);
    lemma_first_seen_distinct(toks);
    lemma_first_seen_members(toks, t);
    let fs = |s: Stressor| tokens(s.components_affected@);
    let fp = |p: Purpose| tokens(p.components@);
    if exists|j: int| 0 <= j < stressors.len() && #[trigger] tokens(stressors[j].components_affected@).contains(t) {
        let j = choose|j: int| 0 <= j < stressors.len() && #[trigger] tokens(stressors[j].components_affected@).contains(t);
        lemma_flat_map_includes(stressors, fs, j, t);
        let i = choose|i: int| 0 <= i < all_tokens(stressors).len() && #[trigger] all_tokens(stressors)[i] == t;
        assert(toks[i] == t);
    }
    if exists|j: int| 0 <= j < purposes.len() && #[trigger] tokens(purposes[j].components@).contains(t) {
        let j = choose|j: int| 0 <= j < purposes.len() && #[trigger] tokens(purposes[j].components@).contains(t);
        lemma_flat_map_includes(purposes, fp, j, t);
        let i = choose|i: int| 0 <= i < purpose_tokens(purposes).len() && #[trigger] purpose_tokens(purposes)[i] == t;
        assert(toks[all_tokens(stressors).len() + i] == t);
    }
    if toks.contains(t) {
        let i = choose|i: int| 0 <= i < toks.len() && #[trigger] toks[i] == t;
        if i < all_tokens(stressors).len() {
            assert(all_tokens(stressors)[i] == t);
            lemma_flat_map_member(stressors, fs, t);
        } else {
            assert(purpose_tokens(purposes)[i - all_tokens(stressors).len()] == t);
            lemma_flat_map_member(purposes, fp, t);
        }
    }
}

/// The links of one stressor: its non-empty component tokens.
pub open spec fn links_of(s: Stressor) -> nat {
    tokens(s.components_affected@).filter(|t: Seq<char>| t.len() > 0).len()
}

/// The links of all the stressors, summed stressor by stressor (a
/// component two stressors name counts for each).
pub open spec fn links_total(stressors: Seq<Stressor>) -> nat
    decreases stressors.len(),
{
    if stressors.len() == 0 {
        0
    } else {
        links_total(stressors.drop_last()) + links_of(stressors.last())
    }
}

/// Keeping the non-empty pieces of a text keeps as many as a filter would.
pub proof fn lemma_nonempty_pieces_count(pieces: Seq<Seq<char>>)
    ensures
        nonempty_pieces(pieces).len() == pieces.filter(|t: Seq<char>| t.len() > 0).len(),
    decreases pieces.len(),
{
    reveal_with_fuel(Seq::filter, 1);
    if pieces.len() > 0 {
        lemma_nonempty_pieces_count(pieces.drop_last());
    }
}

/// The non-empty pieces of two lists are those of each, in turn.
pub proof fn lemma_nonempty_pieces_append(a: Seq<Seq<char>>, b: Seq<Seq<char>>)
    ensures
        nonempty_pieces(a + b).len() == nonempty_pieces(a).len() + nonempty_pieces(b).len(),
    decreases b.len(),
{
    if b.len() == 0 {
        assert(a + b =~= a);
    } else {
        assert((a + b).drop_last() =~= a + b.drop_last());
        assert((a + b).last() == b.last());
        lemma_nonempty_pieces_append(a, b.drop_last());
    }
}

/// K of the summary counts every stressor's component links: the sum over
/// the stressors of their non-empty component tokens.
pub proof fn lemma_connections_are_links(stressors: Seq<Stressor>)
    ensures
        ledger_connections(stressors) == links_total(stressors),
    decreases stressors.len(),
{
    if stressors.len() > 0 {
        let front = stressors.drop_last();
        let f = |s: Stressor| tokens(s.components_affected@);
        front.lemma_flat_map_push(f, stressors.last());
        assert(front.push(stressors.last()) =~= stressors);
        assert(all_tokens(stressors) == all_tokens(front) + tokens(stressors.last().components_affected@));
        lemma_nonempty_pieces_append(all_tokens(front), tokens(stressors.last().components_affected@));
        lemma_nonempty_pieces_count(tokens(stressors.last().components_affected@));
        lemma_connections_are_links(front);
    }
}

/// `first_seen` on strings.
fn first_seen_exec(toks: &Vec<String>) -> (r: Vec<String>)
    ensures
        views(r@) == first_seen(views(toks@)),
{
    let ghost tv = views(toks@);
    let mut r: Vec<String> = Vec::new();
    let mut i: usize = 0;
    while i < toks.len()
        invariant
            i <= toks@.len(),
            tv == views(toks@),
            views(r@) == first_seen(tv.take(i as int)),
        decreases toks@.len() - i,
    {
        assert(tv.take(i + 1).drop_last() =~= tv.take(i as int));
        assert(tv.take(i + 1).last() == toks@[i as int]@);
        if toks[i].as_str().unicode_len() > 0 && !contains_string(&r, &toks[i]) {
            let ghost before = views(r@);
            r.push(toks[i].clone());
            assert(views(r@) =~= before.push(toks@[i as int]@));
        }
        i = i + 1;
    }
    assert(tv.take(tv.len() as int) =~= tv);
    r
}

/// The NKP summary counts: N is the stressors plus the distinct components
/// named by stressors or purposes; K the stressors' non-empty component
/// tokens. `None` when N does not fit in `usize`.
pub fn nkp_counts(stressors: &[Stressor], purposes: &[Purpose]) -> (r: Option<(usize, usize)>)
    ensures
        r matches Some(c) ==> c.0 == stressors@.len() + ledger_components(stressors@, purposes@).len()
            && c.1 == ledger_connections(stressors@),
        r matches Some(c) ==> c.1 == links_total(stressors@),
        r is None ==> stressors@.len() + ledger_components(stressors@, purposes@).len() > usize::MAX,
{
    let mut toks: Vec<String> = Vec::new();
    let mut k: usize = 0;
    let mut i: usize = 0;
    assert(stressors@.take(0) =~= Seq::<Stressor>::empty());
    assert(all_tokens(stressors@.take(0)) =~= Seq::<Seq<char>>::empty());
    while i < stressors.len()
        invariant
            i <= stressors@.len(),
            views(toks@) == all_tokens(stressors@.take(i as int)),
            k == nonempty_pieces(views(toks@)).len(),
            k <= toks@.len(),
        decreases stressors@.len() - i,
    {
        let ts = component_tokens(stressors[i].components_affected.as_str());
        let ghost base = views(toks@);
        let mut j: usize = 0;
        assert(base + views(ts@).take(0) =~= base);
        while j < ts.len()
            invariant
                j <= ts@.len(),
                views(ts@) == tokens(stressors@[i as int].components_affected@),
                views(toks@) == base + views(ts@).take(j as int),
                k == nonempty_pieces(views(toks@)).len(),
                k <= toks@.len(),
            decreases ts@.len() - j,
        {
            let ghost before = views(toks@);
            toks.push(ts[j].clone());
            assert(views(toks@) =~= before.push(ts@[j as int]@));
            assert(views(toks@).drop_last() =~= before);
            let count = toks.len();
            assert(k < count);
            if ts[j].as_str().unicode_len() > 0 {
                k = k + 1;
            }
            j = j + 1;
            assert(views(toks@) =~= base + views(ts@).take(j as int));
        }
        proof {
            assert(views(ts@).take(ts@.len() as int) =~= views(ts@));
            assert(stressors@.take(i + 1) =~= stressors@.take(i as int).push(stressors@[i as int]));
            stressors@.take(i as int).lemma_flat_map_push(
                |s: Stressor| tokens(s.components_affected@),
                stressors@[i as int],
            );
        }
        i = i + 1;
    }
    assert(stressors@.take(stressors@.len() as int) =~= stressors@);
    let ghost stoks = views(toks@);
    let mut p: usize = 0;
    assert(purposes@.take(0) =~= Seq::<Purpose>::empty());
    assert(purpose_tokens(purposes@.take(0)) =~= Seq::<Seq<char>>::empty());
    assert(views(toks@) =~= stoks + purpose_tokens(purposes@.take(0)));
    while p < purposes.len()
        invariant
            p <= purposes@.len(),
            stoks == all_tokens(stressors@),
            views(toks@) == stoks + purpose_tokens(purposes@.take(p as int)),
        decreases purposes@.len() - p,
    {
        let ts = component_tokens(purposes[p].components.as_str());
        let ghost base = views(toks@);
        let mut j: usize = 0;
        assert(base + views(ts@).take(0) =~= base);
        while j < ts.len()
            invariant
                j <= ts@.len(),
                views(ts@) == tokens(purposes@[p as int].components@),
                views(toks@) == base + views(ts@).take(j as int),
            decreases ts@.len() - j,
        {
            let ghost before = views(toks@);
            toks.push(ts[j].clone());
            assert(views(toks@) =~= before.push(ts@[j as int]@));
            j = j + 1;
            assert(views(toks@) =~= base + views(ts@).take(j as int));
        }
        proof {
            assert(views(ts@).take(ts@.len() as int) =~= views(ts@));
            assert(purposes@.take(p + 1) =~= purposes@.take(p as int).push(purposes@[p as int]));
            purposes@.take(p as int).lemma_flat_map_push(
                |q: Purpose| tokens(q.components@),
                purposes@[p as int],
            );
        }
        p = p + 1;
        assert(views(toks@) =~= stoks + purpose_tokens(purposes@.take(p as int)));
    }
    assert(purposes@.take(purposes@.len() as int) =~= purposes@);
    let comps = first_seen_exec(&toks);
    proof {
        lemma_connections_are_links(stressors@);
    }
    match stressors.len().checked_add(comps.len()) {
        Some(n) => Some((n, k)),
        None => None,
    }
}

/// A link finding as the verify status lists it.
pub open spec fn link_message(v: LinkViolation) -> Seq<char> {
    "missing attractor '"@ + v.missing_attractor_id@ + "'"@
}

pub open spec fn outcome_finding_line(v: OutcomeViolation) -> Seq<char> {
    "- outcome ["@ + v.source@ + "] "@ + v.id@ + ": "@ + v.outcome_str@ + " — "@ + v.reason@ + "\n"@
}

pub open spec fn link_finding_line(v: LinkViolation) -> Seq<char> {
    "- link ["@ + v.source@ + "] "@ + v.id@ + ": "@ + link_message(v) + "\n"@
}

/// How many findings of each kind the status lists.
pub open spec fn shown() -> int {
    8
}

pub open spec fn strict_guidance() -> Seq<char> {
    "**Strict mode — fix before analysis.** Work Socratically with the operator: propose concrete `residual add` / edits that clear these findings, wait for approval, re-run `residual verify all`, then continue the skill. Do not invent architecture on a broken baseline.\n\n"@
}

pub open spec fn advisory_guidance() -> Seq<char> {
    "**Advisory mode — note and proceed.** Surface these findings to the operator, then jump into the skill. Repair when ready; capture is not blocked. Still Socratic: gather freely, modify only with approval.\n\n"@
}

/// The verify-status section: the policy, then either that the ledger
/// checks passed, or a count, the first eight findings of each kind, a
/// note when there are more than sixteen, and the guidance of the policy.
pub open spec fn verify_status_text(
    strict: bool,
    outcomes: Seq<OutcomeViolation>,
    links: Seq<LinkViolation>,
) -> Seq<char> {
    let total = outcomes.len() + links.len();
    let head = "## Verify status\nPolicy: `super_strict` / validation.strict = **"@ + bool_text(strict)
        + "**\n\n"@;
    if total == 0 {
        head + "Ledger checks passed. Proceed Socratically with the skill.\n\n"@
    } else {
        head + "**"@ + decimal(total) + "** verify finding(s) ("@ + decimal(outcomes.len()) + " outcome, "@
            + decimal(links.len()) + " link):\n"@ + concat_all(
            outcomes.take(if outcomes.len() < shown() { outcomes.len() as int } else { shown() }).map_values(
                |v: OutcomeViolation| outcome_finding_line(v),
            ),
        ) + concat_all(
            links.take(if links.len() < shown() { links.len() as int } else { shown() }).map_values(
                |v: LinkViolation| link_finding_line(v),
            ),
        ) + (if total > 16 {
            "- …and "@ + decimal((total - 16) as nat) + " more (run `residual verify all`)\n"@
        } else {
            Seq::<char>::empty()
        }) + "\n"@ + (if strict {
            strict_guidance()
        } else {
            advisory_guidance()
        })
    }
}

fn push_decimal(out: &mut String, n: usize)
    ensures
        final(out)@ == old(out)@ + decimal(n as nat),
{
    let d = decimal_string(n as u64);
    out.append(d.as_str());
}

fn outcome_lines(outcomes: &[OutcomeViolation]) -> (r: String)
    ensures
        r@ == concat_all(
            outcomes@.take(if outcomes@.len() < shown() { outcomes@.len() as int } else { shown() }).map_values(
                |v: OutcomeViolation| outcome_finding_line(v),
            ),
        ),
{
    let lim: usize = if outcomes.len() < 8 { outcomes.len() } else { 8 };
    let mut out = String::new();
    let mut i: usize = 0;
    while i < lim
        invariant
            i <= lim <= outcomes@.len(),
            lim == (if outcomes@.len() < shown() { outcomes@.len() as int } else { shown() }),
            out@ == concat_all(outcomes@.take(i as int).map_values(|v: OutcomeViolation| outcome_finding_line(v))),
        decreases lim - i,
    {
        let v = &outcomes[i];
        let mut line = String::from_str("- outcome [");
        line.append(v.source.as_str());
        line.append("] ");
        line.append(v.id.as_str());
        line.append(": ");
        line.append(v.outcome_str.as_str());
        line.append(" — ");
        line.append(v.reason.as_str());
        line.append("\n");
        out.append(line.as_str());
        i = i + 1;
        assert(outcomes@.take(i as int).map_values(|v: OutcomeViolation| outcome_finding_line(v)).drop_last()
            =~= outcomes@.take(i - 1).map_values(|v: OutcomeViolation| outcome_finding_line(v)));
    }
    out
}

fn link_lines(links: &[LinkViolation]) -> (r: String)
    ensures
        r@ == concat_all(
            links@.take(if links@.len() < shown() { links@.len() as int } else { shown() }).map_values(
                |v: LinkViolation| link_finding_line(v),
            ),
        ),
{
    let lim: usize = if links.len() < 8 { links.len() } else { 8 };
    let mut out = String::new();
    let mut i: usize = 0;
    while i < lim
        invariant
            i <= lim <= links@.len(),
            lim == (if links@.len() < shown() { links@.len() as int } else { shown() }),
            out@ == concat_all(links@.take(i as int).map_values(|v: LinkViolation| link_finding_line(v))),
        decreases lim - i,
    {
        let v = &links[i];
        let mut line = String::from_str("- link [");
        line.append(v.source.as_str());
        line.append("] ");
        line.append(v.id.as_str());
        line.append(": ");
        line.append("missing attractor '");
        line.append(v.missing_attractor_id.as_str());
        line.append("'");
        line.append("\n");
        out.append(line.as_str());
        i = i + 1;
        assert(links@.take(i as int).map_values(|v: LinkViolation| link_finding_line(v)).drop_last()
            =~= links@.take(i - 1).map_values(|v: LinkViolation| link_finding_line(v)));
    }
    out
}

/// The verify-status section of a context (see `verify_status_text`).
pub fn verify_status_section(strict: bool, outcomes: &[OutcomeViolation], links: &[LinkViolation]) -> (r: String)
    requires
        outcomes@.len() + links@.len() <= usize::MAX,
    ensures
        r@ == verify_status_text(strict, outcomes@, links@),
{
    let total = outcomes.len() + links.len();
    let mut out = String::from_str("## Verify status\nPolicy: `super_strict` / validation.strict = **");
    if strict {
        out.append("true");
    } else {
        out.append("false");
    }
    out.append("**\n\n");
    if total == 0 {
        out.append("Ledger checks passed. Proceed Socratically with the skill.\n\n");
        return out;
    }
    let ol = outcome_lines(outcomes);
    let ll = link_lines(links);
    let more = if total > 16 {
        let mut m = String::from_str("- …and ");
        push_decimal(&mut m, total - 16);
        m.append(" more (run `residual verify all`)\n");
        m
    } else {
        String::new()
    };
    out.append("**");
    push_decimal(&mut out, total);
    out.append("** verify finding(s) (");
    push_decimal(&mut out, outcomes.len());
    out.append(" outcome, ");
    push_decimal(&mut out, links.len());
    out.append(" link):\n");
    out.append(ol.as_str());
    out.append(ll.as_str());
    out.append(more.as_str());
    out.append("\n");
    if strict {
        out.append("**Strict mode — fix before analysis.** Work Socratically with the operator: propose concrete `residual add` / edits that clear these findings, wait for approval, re-run `residual verify all`, then continue the skill. Do not invent architecture on a broken baseline.\n\n");
    } else {
        out.append("**Advisory mode — note and proceed.** Surface these findings to the operator, then jump into the skill. Repair when ready; capture is not blocked. Still Socratic: gather freely, modify only with approval.\n\n");
    }
    out
}

/// The context of `skill` for the ledger in `data`, composed from the
/// ledger itself: the verify-status section runs the outcome checks (against
/// `terminology` and the lexicon) and the link checks under the `strict`
/// policy, and N and K are the ledger's NKP counts. `k_per_n` is K/N as
/// text. `None` when the number of findings or N does not fit in `usize`.
pub fn skill_context(
    data: &ContextData,
    terminology: &[Term],
    skill: &str,
    strict: bool,
    k_per_n: &str,
) -> (r: Option<String>)
    ensures
        r is Some <==> outcome_findings(
            data.stressors@,
            data.purposes@,
            index_word_set(terminology@, data.terms@),
            phrases_of(index_entries(terminology@, data.terms@)),
        ).len() + link_findings(data.stressors@, data.purposes@, attractor_ids(data.attractors@)).len()
            <= usize::MAX && data.stressors@.len() + ledger_components(data.stressors@, data.purposes@).len()
            <= usize::MAX,
        r matches Some(text) ==> exists|ov: Seq<OutcomeViolation>, lv: Seq<LinkViolation>|
            {
                &&& #[trigger] violation_views(ov) == outcome_findings(
                    data.stressors@,
                    data.purposes@,
                    index_word_set(terminology@, data.terms@),
                    phrases_of(index_entries(terminology@, data.terms@)),
                )
                &&& #[trigger] link_views(lv) == link_findings(
                    data.stressors@,
                    data.purposes@,
                    attractor_ids(data.attractors@),
                )
                &&& text@ == context_text(
                    data.attractors@,
                    data.stressors@,
                    data.purposes@,
                    data.terms@,
                    data.personas@,
                    skill@,
                    verify_status_text(strict, ov, lv),
                    (data.stressors@.len() + ledger_components(data.stressors@, data.purposes@).len()) as nat,
                    ledger_connections(data.stressors@),
                    k_per_n@,
                )
            },
{
    let ov = check_outcomes(&data.stressors, &data.purposes, terminology, &data.terms);
    let lv = check_links(&data.stressors, &data.purposes, &data.attractors);
    if ov.len() > usize::MAX - lv.len() {
        return None;
    }
    let status = verify_status_section(strict, &ov, &lv);
    match nkp_counts(&data.stressors, &data.purposes) {
        None => None,
        Some((n, k)) => {
            let text = build(data, skill, status.as_str(), n, k, k_per_n);
            assert(violation_views(ov@) == violation_views(ov@));
            assert(link_views(lv@) == link_views(lv@));
            Some(text)
        },
    }
}

} // verus!
