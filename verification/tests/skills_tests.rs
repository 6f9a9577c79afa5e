use std::path::PathBuf;
use std::str::FromStr;

use residual::skills::context::{nkp_counts, sections_for, skill_context, verify_status_section, ContextData};
use residual::skills::install::{
    install_location, is_passthrough_stub, parse_version_from_front_matter, passthrough_stub,
    skill_request_phrase, Agent,
};
use residual::skills::{catalogue, check_report, estimate_tokens, find};
use residual::storage::personas::Persona;
use residual::storage::purposes::Purpose;
use residual::storage::stressors::Stressor;
use residual::storage::terminology::Term;
use residual::structure::analysis::attractors::Attractor;
use residual::structure::definition::lexicon::Term as LexiconTerm;
use residual::verify::{check_links, check_outcomes};

#[test]
fn agent_from_str_cursor() {
    assert!(matches!(Agent::from_str("cursor").unwrap(), Agent::Cursor));
}

#[test]
fn agent_from_str_copilot() {
    assert!(matches!(Agent::from_str("copilot").unwrap(), Agent::Copilot));
}

#[test]
fn agent_from_str_agnostic() {
    assert!(matches!(Agent::from_str("agnostic").unwrap(), Agent::Agnostic));
}

#[test]
fn agent_from_str_unknown_errors() {
    assert!(Agent::from_str("unknown-agent").is_err());
}

#[test]
fn unknown_agent_message_names_the_choices() {
    let e = Agent::parse("Cursor").unwrap_err();
    assert_eq!(e.message(), "unknown agent 'Cursor': must be cursor, copilot, or agnostic");
}

fn local_path(name: &str, agent: Agent) -> String {
    let (dir, file) = install_location(name, agent);
    PathBuf::from(".").join(dir).join(file).to_string_lossy().to_string()
}

#[test]
fn install_path_cursor_ends_correctly() {
    let s = local_path("purpose-walk", Agent::Cursor);
    assert!(s.ends_with(".cursor/rules/residual-purpose-walk.mdc"), "unexpected path: {}", s);
}

#[test]
fn install_path_copilot_ends_correctly() {
    let s = local_path("purpose-walk", Agent::Copilot);
    assert!(s.ends_with(".github/copilot/residual-purpose-walk.md"), "unexpected path: {}", s);
}

#[test]
fn install_path_agnostic_ends_correctly() {
    let s = local_path("purpose-walk", Agent::Agnostic);
    assert!(s.ends_with(".residual/skills/purpose-walk.md"), "unexpected path: {}", s);
}

#[test]
fn passthrough_stub_requests_skill_show_and_data() {
    let stub = passthrough_stub("stressor-walk");
    assert!(is_passthrough_stub(&stub));
    assert!(stub.contains("walk the stressors in this project"));
    assert!(stub.contains("`residual skill show stressor-walk`"));
    assert!(stub.contains("`residual skill data stressor-walk`"));
    assert!(stub.contains("Socratically"));
    assert!(!stub.contains("## Process"));
}

#[test]
fn passthrough_stub_purpose_walk_phrase() {
    let stub = passthrough_stub("purpose-walk");
    assert!(stub.contains("walk the purposes in this project"));
}

#[test]
fn passthrough_stub_for_any_name_is_recognised() {
    for name in ["x\n---\nrest", "", "tdd-implement", "naïve"] {
        assert!(is_passthrough_stub(&passthrough_stub(name)), "name {:?}", name);
    }
}

#[test]
fn passthrough_stub_exact_text() {
    let stub = passthrough_stub("fmea");
    assert!(stub.starts_with("---\nname: fmea\npassthrough: true\ndescription: Residual fmea — begin with residual skill show / skill data\n---\n\n"));
    assert!(stub.contains("The operator has requested you (agent) run FMEA in this project. Begin by running `residual skill show fmea` and `residual skill data fmea`.\n"));
    assert!(stub.ends_with("`skill data` reports verify status. Follow its strictness guidance before diving into analysis.\n"));
}

#[test]
fn stub_detection_without_front_matter() {
    assert!(is_passthrough_stub("run residual skill show then residual skill data"));
    assert!(!is_passthrough_stub("run residual skill show only"));
    assert!(is_passthrough_stub("---\n  passthrough: yes, true\n---\nbody"));
    assert!(!is_passthrough_stub("---\nname: x\n---\npassthrough: true\n"));
    assert!(!is_passthrough_stub(""));
}

#[test]
fn request_phrases() {
    assert_eq!(skill_request_phrase("naive-draft"), "draft a naïve architecture");
    assert_eq!(skill_request_phrase("tdd-implement"), "implement with R/G TDD and subagents");
    assert_eq!(skill_request_phrase("other"), "apply this residual skill");
}

#[test]
fn front_matter_versions() {
    assert_eq!(parse_version_from_front_matter("---\nname: purpose-walk\nversion: 0\n---\n# Purpose Walk\n"), Some(0));
    assert_eq!(parse_version_from_front_matter("---\nversion:  12 \n---\n"), Some(12));
    assert_eq!(parse_version_from_front_matter("---\n version: 3\nversion: x\nversion: 4\n---\n"), Some(4));
    assert_eq!(parse_version_from_front_matter("---\n---\nversion: 5\n"), None);
    assert_eq!(parse_version_from_front_matter("version: 5\n"), None);
    assert_eq!(parse_version_from_front_matter(""), None);
    assert_eq!(parse_version_from_front_matter(residual::skills::definitions::FMEA), Some(1));
}

#[test]
fn find_purpose_walk_returns_some_with_title() {
    let result = find("purpose-walk");
    assert!(result.is_some(), "expected Some for 'purpose-walk'");
    let (content, _version) = result.unwrap();
    assert!(
        content.contains("Purpose Walk"),
        "expected 'Purpose Walk' in content, got: {}",
        &content[..content.len().min(200)]
    );
}

#[test]
fn find_nonexistent_returns_none() {
    assert!(find("nonexistent-skill").is_none());
}

#[test]
fn estimate_tokens_empty_string() {
    assert_eq!(estimate_tokens(""), 0);
}

#[test]
fn estimate_tokens_hello_world() {
    let tokens = estimate_tokens("hello world");
    assert!(tokens >= 6 && tokens <= 10, "expected ~8 tokens (±2), got {}", tokens);
}

#[test]
fn estimate_tokens_counts_bytes() {
    assert_eq!(estimate_tokens("hello world"), 8);
    assert_eq!(estimate_tokens("ïï"), 3);
    assert_eq!(estimate_tokens("abc"), 2);
}

#[test]
fn all_six_skills_present() {
    let skills = catalogue();
    let names: Vec<&str> = skills.iter().map(|(n, _, _)| *n).collect();
    for expected in &["purpose-walk", "naive-draft", "stressor-walk", "integrate", "fmea", "atam"] {
        assert!(names.contains(expected), "missing skill: {}", expected);
    }
    assert_eq!(skills.len(), 6, "expected exactly 6 skills");
}

#[test]
fn check_report_lines() {
    assert_eq!(check_report("fmea", "cursor", None, 0), "'fmea' is not installed for agent 'cursor'.");
    assert_eq!(check_report("fmea", "cursor", Some(0), 0), "'fmea' is up to date (version 0).");
    assert_eq!(
        check_report("fmea", "cursor", Some(1), 0),
        "'fmea' is outdated: installed version 1, embedded version 0."
    );
}

fn stressor(id: &str, attractor_id: &str, outcomes: &str, components: &str) -> Stressor {
    Stressor {
        id: id.to_string(),
        shortname: String::new(),
        description: "test".to_string(),
        attractor_id: attractor_id.to_string(),
        naive_change: "none".to_string(),
        outcomes: outcomes.to_string(),
        components_affected: components.to_string(),
    }
}

fn empty_data() -> ContextData {
    ContextData { attractors: vec![], stressors: vec![], purposes: vec![], terms: vec![], personas: vec![] }
}

fn context(data: &ContextData, terminology: &[Term], skill: &str, strict: bool) -> String {
    let (n, k) = nkp_counts(&data.stressors, &data.purposes).unwrap();
    let kpn = if n == 0 { 0.0 } else { k as f64 / n as f64 };
    skill_context(data, terminology, skill, strict, &format!("{:.2}", kpn)).unwrap()
}

#[test]
fn build_naive_draft_includes_purposes_section() {
    let out = context(&empty_data(), &[], "naive-draft", true);
    assert!(out.contains("## Purposes"), "naive-draft context must include Purposes");
}

#[test]
fn build_naive_draft_excludes_stressors_section() {
    let out = context(&empty_data(), &[], "naive-draft", true);
    assert!(!out.contains("## Stressors"), "naive-draft context must not include Stressors");
}

#[test]
fn build_unknown_skill_returns_all_sections() {
    let out = context(&empty_data(), &[], "unknown-skill", true);
    assert!(out.contains("## Purposes"), "unknown skill should include Purposes");
    assert!(out.contains("## Stressors"), "unknown skill should include Stressors");
    assert!(out.contains("## Attractors"), "unknown skill should include Attractors");
}

#[test]
fn nkp_summary_n_reflects_components_not_entity_count() {
    let mut data = empty_data();
    data.terms.push(LexiconTerm {
        term: "auth".to_string(),
        definition: "authentication".to_string(),
        domain: String::new(),
        aliases: String::new(),
    });
    data.stressors.push(stressor("S-01", "", "system handles auth", "auth,db"));
    let out = context(&data, &[], "integrate", true);
    assert!(out.contains("N=3,") || out.contains("N=2,"), "context: {}", out);
    assert!(out.contains("## NKP Summary\nN=3, K=2, K/N=0.67\n"), "context: {}", out);
}

#[test]
fn build_includes_verify_status_strict_guidance() {
    let mut data = empty_data();
    data.stressors.push(stressor("S-01", "", "widget frobs blorple", "x"));
    let out = context(&data, &[], "purpose-walk", true);
    assert!(out.contains("## Verify status"), "expected verify status section");
    assert!(out.contains("Strict mode") || out.contains("fix before"), "got: {}", out);
}

#[test]
fn build_includes_verify_status_advisory_when_not_strict() {
    let mut data = empty_data();
    data.stressors.push(stressor("S-01", "", "widget frobs blorple", "x"));
    let out = context(&data, &[], "purpose-walk", false);
    assert!(out.contains("Advisory mode") || out.contains("note and proceed"), "got: {}", out);
}

#[test]
fn clean_ledger_passes_and_notes_missing_personas() {
    let out = context(&empty_data(), &[], "stressor-walk", true);
    assert!(out.contains("Ledger checks passed. Proceed Socratically with the skill.\n\n"));
    assert!(out.contains("> **Persona note:** at least 2 personas are needed, found 0 — add personas when ready; capture is not blocked.\n\n"));
    assert!(out.contains("## Whole-system-residue\n"));
    assert!(out.contains("## Personas\nnone\n\n"));
    assert!(out.starts_with("# Residual Context — stressor-walk\n\n## Verify status\n"));
}

#[test]
fn context_tables_list_rows() {
    let mut data = empty_data();
    data.attractors.push(Attractor::new("A-01", "Clarity", "up", "down"));
    data.personas.push(Persona {
        name: "ana".to_string(),
        role: "dev".to_string(),
        concerns: String::new(),
        desires: String::new(),
        stressor_ids: vec![],
    });
    data.purposes.push(Purpose {
        id: "P-01".to_string(),
        shortname: String::new(),
        description: "d".to_string(),
        attractor_id: "A-01".to_string(),
        naive_change: "n".to_string(),
        outcomes: "o".to_string(),
        components: "cli".to_string(),
    });
    let out = context(&data, &[], "fmea", false);
    assert!(out.contains("| A-01 | Clarity | up | down |\n"));
    assert!(out.contains("| P-01 | d | A-01 | n | o |\n"));
    assert!(out.contains("- ana (role: dev)\n"));
    assert!(out.contains("found 1"));
    assert!(out.contains("N=1, K=0, K/N=0.00"));
}

#[test]
fn verify_status_lists_at_most_eight_of_each_and_counts_the_rest() {
    let mut data = empty_data();
    for i in 0..20 {
        data.stressors.push(stressor(&format!("S-{:02}", i), "A-99", "a b", "x"));
    }
    let ov = check_outcomes(&data.stressors, &data.purposes, &[], &[]);
    let lv = check_links(&data.stressors, &data.purposes, &data.attractors);
    assert_eq!(ov.len(), 20);
    assert_eq!(lv.len(), 20);
    let status = verify_status_section(true, &ov, &lv);
    assert!(status.contains("**40** verify finding(s) (20 outcome, 20 link):\n"));
    assert_eq!(status.matches("- outcome [").count(), 8);
    assert_eq!(status.matches("- link [").count(), 8);
    assert!(status.contains("- link [stressor] S-00: missing attractor 'A-99'\n"));
    assert!(status.contains("- …and 24 more (run `residual verify all`)\n"));
}

#[test]
fn sections_per_skill() {
    let s = sections_for("purpose-walk");
    assert!(s.attractors && !s.stressors && s.purposes && s.terminology && !s.personas && !s.nkp);
    let s = sections_for("atam");
    assert!(s.attractors && s.stressors && s.purposes && s.terminology && s.personas && s.nkp);
}
