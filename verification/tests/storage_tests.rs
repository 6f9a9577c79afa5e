use std::str::FromStr;

use residual::storage::iterations::{by_number, next_n, parse, render, IterationMeta};
use residual::storage::terminology::append_bytes;

use residual::storage::attractors::{self, Attractor, Valence};
use residual::storage::config::{render_v3, StorageConfig};
use residual::storage::format::{
    attractors_v3_from_csv, attractors_v3_to_csv, forces_from_csv, forces_to_csv, lexicon_to_csv,
};
use residual::storage::integrity::migration::{
    is_v3_config, merge_terminology, migrate_attractor_row, migrate_naive_attractors,
    migrate_naive_values, MigrateReport,
};
use residual::storage::personas::check_personas_adequacy;
use residual::storage::purposes::{self, Purpose};
use residual::storage::residues;
use residual::storage::stressors::{self, Stressor};
use residual::storage::terminology::{term_index, term_set, Term};
use residual::storage::{max_numbered, numbered, truncate_state, DuplicateId};
use residual::structure::analysis::attractors::Attractor as V3Attractor;
use residual::structure::analysis::force::Force;
use residual::structure::analysis::residues::Residue;
use residual::structure::definition::lexicon::Term as LexiconTerm;

fn make_attractor(id: &str) -> Attractor {
    Attractor {
        id: id.to_string(),
        name: "Stability".to_string(),
        valence: Valence::Positive,
        description: "System remains stable".to_string(),
        phase_state: "active".to_string(),
    }
}

fn make_purpose(id: &str) -> Purpose {
    Purpose {
        id: id.to_string(),
        shortname: String::new(),
        description: "desc".to_string(),
        attractor_id: "A-01".to_string(),
        naive_change: "feat".to_string(),
        outcomes: "system enables login".to_string(),
        components: "auth,ui".to_string(),
    }
}

fn make_stressor(id: &str) -> Stressor {
    Stressor {
        id: id.to_string(),
        shortname: String::new(),
        description: "desc".to_string(),
        attractor_id: "A-01".to_string(),
        naive_change: "change".to_string(),
        outcomes: "system handles auth".to_string(),
        components_affected: "auth,db".to_string(),
    }
}

fn make_term(term: &str) -> Term {
    Term {
        term: term.to_string(),
        definition: "a definition".to_string(),
        domain: "core".to_string(),
        related_terms: "".to_string(),
    }
}

#[test]
fn attractors_next_id_empty() {
    assert_eq!(attractors::next_id(&[]), "A-01");
}

#[test]
fn next_id_after_a03() {
    let attractors = vec![make_attractor("A-01"), make_attractor("A-03")];
    assert_eq!(attractors::next_id(&attractors), "A-04");
}

#[test]
fn exists_returns_false_for_empty_csv() {
    assert!(!attractors::id_exists(&[], "A-01"));
}

#[test]
fn exists_returns_true_after_append() {
    let mut rows = Vec::new();
    attractors::append(&mut rows, make_attractor("A-01")).unwrap();
    assert!(attractors::id_exists(&rows, "A-01"));
}

#[test]
fn valence_positive_parses() {
    let v: Valence = "positive".parse().unwrap();
    assert_eq!(v, Valence::Positive);
}

#[test]
fn valence_negative_parses() {
    let v: Valence = "negative".parse().unwrap();
    assert_eq!(v, Valence::Negative);
}

#[test]
fn valence_invalid_errors() {
    let result = Valence::from_str("neutral");
    assert!(result.is_err());
}

#[test]
fn valence_reads_any_case_and_names_itself() {
    assert_eq!(Valence::parse("NeGaTiVe").unwrap(), Valence::Negative);
    assert_eq!(Valence::parse(Valence::Positive.as_str()).unwrap(), Valence::Positive);
    let e = Valence::parse("Neutral").unwrap_err();
    assert_eq!(e.message(), "invalid valence 'neutral': must be 'positive' or 'negative'");
}

#[test]
fn attractor_add_refuses_bad_valence() {
    let mut rows = vec![make_attractor("A-01")];
    assert!(attractors::add(&mut rows, "n".to_string(), "sideways", String::new(), String::new()).is_err());
    assert_eq!(rows.len(), 1);
    let id = attractors::add(&mut rows, "n".to_string(), "Positive", String::new(), String::new()).unwrap();
    assert_eq!(id, "A-02");
    assert_eq!(rows[1].valence, Valence::Positive);
}

#[test]
fn purposes_next_id_empty() {
    assert_eq!(purposes::next_id(&[]), "P-01");
}

#[test]
fn next_id_after_p03() {
    let purposes = vec![make_purpose("P-01"), make_purpose("P-03")];
    assert_eq!(purposes::next_id(&purposes), "P-04");
}

#[test]
fn purposes_append_rejects_duplicate_id() {
    let mut rows = Vec::new();
    purposes::append(&mut rows, make_purpose("P-01")).unwrap();
    let err = purposes::append(&mut rows, make_purpose("P-01")).unwrap_err();
    assert!(err.message().contains("already exists"));
    assert_eq!(err.message(), "purpose id 'P-01' already exists");
    assert_eq!(rows.len(), 1);
}

#[test]
fn purposes_append_creates_file_with_header_and_row() {
    let bytes = purposes::to_csv(&[make_purpose("P-01")]).unwrap();
    let content = String::from_utf8(bytes).unwrap();
    assert!(content.contains("id,"), "header missing");
    assert!(content.contains("P-01"), "row missing");
    assert_eq!(
        content,
        "id,shortname,description,naive_change,outcomes,components,attractor_id\nP-01,,desc,feat,system enables login,\"auth,ui\",A-01\n"
    );
}

#[test]
fn purposes_append_does_not_duplicate_header() {
    let bytes = purposes::to_csv(&[make_purpose("P-01"), make_purpose("P-02")]).unwrap();
    let content = String::from_utf8(bytes).unwrap();
    assert_eq!(content.matches("id,").count(), 1, "header duplicated");
}

#[test]
fn stressors_next_id_empty() {
    assert_eq!(stressors::next_id(&[]), "S-01");
}

#[test]
fn next_id_after_s03() {
    let stressors = vec![make_stressor("S-01"), make_stressor("S-03")];
    assert_eq!(stressors::next_id(&stressors), "S-04");
}

#[test]
fn next_id_ignores_foreign_and_malformed_ids() {
    let stressors = vec![make_stressor("S-+7"), make_stressor("X-09"), make_stressor("S-x"), make_stressor("S-123")];
    assert_eq!(stressors::next_id(&stressors), "S-124");
}

#[test]
fn stressors_append_rejects_duplicate_id() {
    let mut rows = Vec::new();
    stressors::append(&mut rows, make_stressor("S-01")).unwrap();
    let err: DuplicateId = stressors::append(&mut rows, make_stressor("S-01")).unwrap_err();
    assert!(err.message().contains("already exists"));
}

#[test]
fn stressors_append_creates_file_with_header_and_row() {
    let content = String::from_utf8(stressors::to_csv(&[make_stressor("S-01")]).unwrap()).unwrap();
    assert!(content.contains("id,"), "header missing");
    assert!(content.contains("S-01"), "row missing");
}

#[test]
fn stressors_append_does_not_duplicate_header() {
    let content =
        String::from_utf8(stressors::to_csv(&[make_stressor("S-01"), make_stressor("S-02")]).unwrap()).unwrap();
    assert_eq!(content.matches("id,").count(), 1, "header duplicated");
}

#[test]
fn add_uses_next_id() {
    let mut rows = vec![make_stressor("S-07")];
    let id = stressors::add(
        &mut rows,
        "d".to_string(),
        "A-01".to_string(),
        "n".to_string(),
        "o".to_string(),
        "c".to_string(),
    );
    assert_eq!(id, "S-08");
    assert_eq!(rows.len(), 2);
    assert_eq!(rows[1].components_affected, "c");
    let mut ps = Vec::new();
    assert_eq!(
        purposes::add(&mut ps, "d".to_string(), "A-01".to_string(), "f".to_string(), "o".to_string(), "c".to_string()),
        "P-01"
    );
}

#[test]
fn term_set_empty_vec() {
    let set = term_set(&[]);
    assert!(set.is_empty());
}

#[test]
fn term_set_contains_lowercase_terms() {
    let terms = vec![make_term("Attractor"), make_term("Stressor")];
    let set = term_set(&terms);
    assert!(set.contains(&"attractor".to_string()));
    assert!(set.contains(&"stressor".to_string()));
}

#[test]
fn term_set_has_no_repeats() {
    let terms = vec![make_term("Auth"), make_term("auth"), make_term("AUTH")];
    assert_eq!(term_set(&terms), vec!["auth".to_string()]);
}

#[test]
fn term_index_merges_lexicon_and_related_term_aliases() {
    let terms = vec![Term {
        term: "family".to_string(),
        definition: "kin".to_string(),
        domain: "core".to_string(),
        related_terms: "families".to_string(),
    }];
    let lexicon = vec![LexiconTerm {
        term: "residue".to_string(),
        definition: "mapping".to_string(),
        domain: "core".to_string(),
        aliases: "residual-map|residual-architecture".to_string(),
    }];
    let index = term_index(&terms, &lexicon);
    assert!(index.words.contains(&"family".to_string()));
    assert!(index.words.contains(&"families".to_string()));
    assert!(index.words.contains(&"residue".to_string()));
    assert!(index.words.contains(&"residual-map".to_string()));
    assert!(index.phrases.iter().any(|p| p.contains("residual-architecture")));
}

#[test]
fn term_index_orders_phrases_longest_first() {
    let terms = vec![Term {
        term: " Two Words ".to_string(),
        definition: String::new(),
        domain: String::new(),
        related_terms: "ab| |cd|ab".to_string(),
    }];
    let index = term_index(&terms, &[]);
    assert_eq!(index.phrases, vec!["two words".to_string(), "ab".to_string(), "cd".to_string(), "ab".to_string()]);
    assert!(index.words.contains(&"two".to_string()));
    assert!(index.words.contains(&"words".to_string()));
    assert!(index.words.contains(&"two words".to_string()));
    assert_eq!(index.words.len(), 5);
}

#[test]
fn map_component_token_covers_dogfood_aliases() {
    // No longer needed — component mapping was part of the removed forces generation.
    // Kept as a no-op.
}

#[test]
fn migration_naive_to_v3() {
    let v3 = migrate_naive_values(false, 500);
    assert_eq!(v3.format_version, "v3");
    assert!(v3.storage.change_detection);
    assert!(!v3.storage.super_strict);
    assert_eq!(v3.storage.token_warn, 500);
    assert!(v3.toml.contains("format_version = \"v3\""));
    assert!(v3.toml.contains("[storage]"));
    assert!(v3.toml.contains("[verification]"));
    assert!(v3.toml.contains("super_strict = false"));
    assert!(v3.toml.contains("token_warn = 500"));
    assert!(v3.toml.starts_with("# residual v3 configuration (migrated from naive)\n[storage]"));
}

#[test]
fn rendered_configs_are_recognised_as_v3() {
    let rendered = render_v3(&StorageConfig::default());
    assert!(rendered.starts_with("# residual v3 configuration\n"));
    assert!(is_v3_config(&rendered));
    assert!(is_v3_config(&migrate_naive_values(true, 1).toml));
    assert!(!is_v3_config("[validation]\nstrict = true\n"));
}

#[test]
fn migrate_attractor_rows() {
    let a = migrate_attractor_row("A-01".into(), "Clarity".into(), "POSITIVE", "NKP reflects reality".into(), "".into());
    assert_eq!(a.positive_state, "NKP reflects reality");
    assert_eq!(a.negative_state, "(migrated) pressure fails when: NKP reflects reality");
    let b = migrate_attractor_row("A-02".into(), "Drift".into(), "negative", "".into(), "traits fail".into());
    assert_eq!(b.positive_state, "(migrated) pressure holds for Drift");
    assert_eq!(b.negative_state, "traits fail");
    let c = migrate_attractor_row("A-03".into(), "X".into(), "odd", "".into(), "".into());
    assert_eq!(c.positive_state, "(migrated) positive state for X");
    assert_eq!(c.negative_state, "(migrated) negative state for X");
}

#[test]
fn migrate_naive_attractor_file() {
    let text = "id,name,valence,description,phase_state\nA-01,Clarity,positive,NKP reflects reality,data is coherent\nA-02,Drift,negative,terms go stale,traits fail\n";
    let rows = migrate_naive_attractors(text.as_bytes()).unwrap();
    assert_eq!(rows.len(), 2);
    assert_eq!(rows[0].positive_state, "data is coherent");
    assert_eq!(rows[1].positive_state, "(migrated) pressure holds when opposite of: terms go stale");
    let bytes = attractors_v3_to_csv(&rows).unwrap();
    let back = attractors_v3_from_csv(&bytes).unwrap();
    assert_eq!(back, rows);
    assert!(String::from_utf8(bytes).unwrap().starts_with("id,name,description,positive_state,negative_state\n"));
    assert!(migrate_naive_attractors(b"a,b\n1,2,3\n").is_none());
}

#[test]
fn merge_terminology_adds_only_new_terms() {
    let mut lexicon = vec![LexiconTerm { term: "residue".into(), definition: "d".into(), domain: "".into(), aliases: "".into() }];
    let old = vec![make_term("residue"), make_term("stressor"), make_term("stressor")];
    let added = merge_terminology(&mut lexicon, &old);
    assert_eq!(added, 2);
    assert_eq!(lexicon.len(), 3);
    assert_eq!(lexicon[1].term, "stressor");
    let report = MigrateReport::default();
    assert!(!report.config_migrated);
}

#[test]
fn format_roundtrips_force_and_lexicon() {
    let force = Force::stressor(
        "S-01",
        "stub-method",
        "install stubs so binary owns methodology",
        vec!["skill sessions follow binary methodology".into()],
    );
    let term = LexiconTerm {
        term: "residue".into(),
        definition: "force + component mapping".into(),
        domain: "core".into(),
        aliases: "residual".into(),
    };
    let bytes = forces_to_csv(&[force.clone()]).unwrap();
    let forces = forces_from_csv(&bytes).unwrap();
    assert_eq!(forces, vec![force]);
    let lex = lexicon_to_csv(&[term.clone()]).unwrap();
    let terms = read_lexicon_bytes(&lex);
    assert_eq!(terms, vec![term]);
}

/// Reads `lexicon.csv` bytes back, header skipped, fields by position.
fn read_lexicon_bytes(bytes: &[u8]) -> Vec<LexiconTerm> {
    let mut rdr = csv::ReaderBuilder::new().has_headers(true).from_reader(bytes);
    let headers = rdr.headers().unwrap().clone();
    assert_eq!(headers.iter().collect::<Vec<_>>(), vec!["term", "definition", "domain", "aliases"]);
    rdr.records()
        .map(|r| {
            let r = r.unwrap();
            LexiconTerm {
                term: r[0].to_string(),
                definition: r[1].to_string(),
                domain: r[2].to_string(),
                aliases: r[3].to_string(),
            }
        })
        .collect()
}

#[test]
fn forces_with_awkward_fields_read_back() {
    let force = Force::purpose(
        "P-07",
        "quote \"and\", comma",
        "line one\nline two\r\nthree",
        vec!["first, outcome".into(), "second \"outcome\"".into()],
    );
    let lone = Force::stressor("", "", "", vec![]);
    let bytes = forces_to_csv(&[force.clone(), lone.clone()]).unwrap();
    assert_eq!(forces_from_csv(&bytes).unwrap(), vec![force, lone]);
}

#[test]
fn attractors_with_awkward_fields_read_back() {
    let make = || V3Attractor::new("A-09", "Name, with comma", "multi\nline", "\"quoted\"");
    let bytes = attractors_v3_to_csv(&[make()]).unwrap();
    assert_eq!(attractors_v3_from_csv(&bytes).unwrap(), vec![make()]);
}

#[test]
fn forces_read_kind_and_outcomes() {
    let text = "id,kind,shortname,naive_change,outcomes,description,attractor_id\nP-01,PURPOSE,s,n,a||b|,d,A-01\n";
    let forces = forces_from_csv(text.as_bytes()).unwrap();
    assert_eq!(forces[0].kind, residual::structure::analysis::force::ForceKind::Purpose);
    assert_eq!(forces[0].outcomes, vec!["a".to_string(), "b".to_string()]);
}

#[test]
fn residue_upsert_keeps_one_row_per_mapping() {
    let mut rows = Vec::new();
    residues::append(&mut rows, Residue::new("R-01", "S-01", "cli"));
    let mut again = Residue::new("R-02", "S-01", "cli");
    again.status = "done".to_string();
    residues::append(&mut rows, again);
    assert_eq!(rows.len(), 1);
    assert_eq!(rows[0].id, "R-01");
    assert_eq!(rows[0].status, "done");
    residues::append(&mut rows, Residue::new("R-02", "S-01", "db"));
    assert_eq!(rows.len(), 2);
    assert_eq!(residues::next_id(&rows), "R-02");
}

#[test]
fn truncated_states() {
    assert_eq!(truncate_state("short"), "short");
    let long = "x".repeat(41);
    assert_eq!(truncate_state(&long), format!("{}…", "x".repeat(40)));
    assert_eq!(truncate_state(&"é".repeat(40)), "é".repeat(40));
}

#[test]
fn numbered_ids() {
    assert_eq!(numbered("S-", 7), "S-07");
    assert_eq!(numbered("S-", 123), "S-123");
    assert_eq!(max_numbered(&vec!["S-02".to_string(), "S-10".to_string()], "S-"), 10);
}

#[test]
fn personas_adequacy_needs_two() {
    assert!(check_personas_adequacy(&["a".to_string()]).is_err());
    assert!(check_personas_adequacy(&["a".to_string(), "b".to_string()]).is_ok());
}

fn make_persona(name: &str) -> residual::storage::personas::Persona {
    residual::storage::personas::Persona {
        name: name.to_string(),
        role: "engineer".to_string(),
        concerns: "performance".to_string(),
        desires: "reliability".to_string(),
        stressor_ids: vec!["S-01".to_string(), "S-02".to_string()],
    }
}

#[test]
fn create_writes_persona_file() {
    let content = residual::storage::personas::render(&make_persona("alice"));
    assert!(content.contains("role:"), "missing role field");
    assert_eq!(
        content,
        "---\nname: alice\nrole: engineer\nconcerns: performance\ndesires: reliability\nstressor_ids: S-01,S-02\n---\n"
    );
}

#[test]
fn load_all_parses_persona() {
    let content = residual::storage::personas::render(&make_persona("alice"));
    let p = residual::storage::personas::parse(&content).unwrap();
    assert_eq!(p.name, "alice");
    assert_eq!(p.role, "engineer");
    assert_eq!(p.stressor_ids, vec!["S-01".to_string(), "S-02".to_string()]);
}

#[test]
fn persona_parse_needs_a_header_and_a_name() {
    assert!(residual::storage::personas::parse("name: x\n").is_none());
    assert!(residual::storage::personas::parse("---\nrole: x\n---\n").is_none());
    let p = residual::storage::personas::parse("---\nname: bo\nstressor_ids:  S-1 , ,S-2\n---\nname: later\n").unwrap();
    assert_eq!(p.name, "bo");
    assert_eq!(p.role, "");
    assert_eq!(p.stressor_ids, vec!["S-1".to_string(), "S-2".to_string()]);
}

#[test]
fn iterations_render_parse_and_order() {
    let m = IterationMeta {
        n: 3,
        date: "2024-01-02".to_string(),
        ri_score: "0.5".to_string(),
        n_val: String::new(),
        k_val: String::new(),
        p_val: String::new(),
        notes: "first".to_string(),
    };
    let text = render(&m);
    assert!(text.starts_with("---\nn: 3\ndate: 2024-01-02\n"));
    let back = parse(&text).unwrap();
    assert_eq!(back.n, 3);
    assert_eq!(back.notes, "first");
    assert_eq!(next_n(&[]), 1);
    assert_eq!(next_n(&[2, 7, 4]), 8);
    let mut a = back.clone();
    a.n = 1;
    let ordered = by_number(vec![back, a]);
    assert_eq!(ordered.iter().map(|m| m.n).collect::<Vec<_>>(), vec![1, 3]);
    assert!(parse("---\nn: x\n---\n").is_none());
}

#[test]
fn terminology_append_bytes() {
    let t = make_term("auth");
    let first = String::from_utf8(append_bytes(false, &t).unwrap()).unwrap();
    assert_eq!(first, "term,definition,domain,related_terms\nauth,a definition,core,\n");
    let next = String::from_utf8(append_bytes(true, &t).unwrap()).unwrap();
    assert_eq!(next, "auth,a definition,core,\n");
}

#[test]
fn duplicate_stressor_message_names_the_record_and_id() {
    let mut rows = vec![make_stressor("S-07")];
    let err = stressors::append(&mut rows, make_stressor("S-07")).unwrap_err();
    assert_eq!(err.message(), "stressor id 'S-07' already exists");
    assert_eq!(rows.len(), 1);
}
