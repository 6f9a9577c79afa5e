use residual::storage::purposes::Purpose as PurposeRow;
use residual::storage::residues::force_exists;
use residual::storage::stressors::Stressor as StressorRow;
use residual::structure::analysis::force::Force;
use residual::structure::definition::components::{filter_architecture_set, Component};
use residual::tags::{dangling_ids, tag_in_line, Tag, TagKind};

fn component(name: &str, set: &str) -> Component {
    Component {
        name: name.to_string(),
        description: String::new(),
        status: "active".to_string(),
        architecture_set: set.to_string(),
    }
}

#[test]
fn residue_tag_lists_trimmed_ids() {
    let tag = tag_in_line("src/a.rs", 7, "// @residue: R-01, R-02 ,, R-03").unwrap();
    assert_eq!(tag.kind, TagKind::Residue);
    assert_eq!(tag.file, "src/a.rs");
    assert_eq!(tag.line, 7);
    assert_eq!(tag.ids, vec!["R-01".to_string(), "R-02".to_string(), "R-03".to_string()]);
}

#[test]
fn stressor_tag_is_found_when_no_residue_tag() {
    let tag = tag_in_line("b.rs", 1, "x(); // @stressor:S-04").unwrap();
    assert_eq!(tag.kind, TagKind::Stressor);
    assert_eq!(tag.ids, vec!["S-04".to_string()]);
}

#[test]
fn residue_marker_wins_over_stressor_marker() {
    let tag = tag_in_line("c.rs", 2, "@stressor: S-01 @residue: R-09").unwrap();
    assert_eq!(tag.kind, TagKind::Residue);
    assert_eq!(tag.ids, vec!["R-09".to_string()]);
}

#[test]
fn line_without_marker_has_no_tag() {
    assert!(tag_in_line("d.rs", 3, "fn main() {}").is_none());
    assert!(tag_in_line("d.rs", 3, "@residue").is_none());
}

#[test]
fn dangling_ids_are_those_not_known() {
    let tags = vec![
        Tag { file: "a".into(), line: 1, kind: TagKind::Stressor, ids: vec!["S-01".into(), "S-02".into()] },
        Tag { file: "b".into(), line: 2, kind: TagKind::Stressor, ids: vec!["S-03".into()] },
    ];
    let known = vec!["S-02".to_string()];
    assert_eq!(dangling_ids(&tags, &known), vec!["S-01".to_string(), "S-03".to_string()]);
    let all = vec!["S-01".to_string(), "S-02".to_string(), "S-03".to_string()];
    assert!(dangling_ids(&tags, &all).is_empty());
}

#[test]
fn architecture_set_filter_keeps_order() {
    let comps = vec![component("a", "core"), component("b", "edge"), component("c", "core")];
    let core = filter_architecture_set(&comps, "core");
    let names: Vec<&str> = core.iter().map(|c| c.name.as_str()).collect();
    assert_eq!(names, vec!["a", "c"]);
    assert!(filter_architecture_set(&comps, "none").is_empty());
}

#[test]
fn force_exists_looks_in_all_three_registers() {
    let forces = vec![Force::stressor("S-01", "load", "scale out", vec![])];
    let stressors: Vec<StressorRow> = vec![];
    let purposes: Vec<PurposeRow> = vec![];
    assert!(force_exists(&forces, &stressors, &purposes, &"S-01".to_string()));
    assert!(!force_exists(&forces, &stressors, &purposes, &"P-01".to_string()));
    let rows = vec![PurposeRow {
        id: "P-01".into(),
        shortname: "hub".into(),
        description: String::new(),
        attractor_id: String::new(),
        naive_change: String::new(),
        outcomes: String::new(),
        components: String::new(),
    }];
    assert!(force_exists(&[], &stressors, &rows, &"P-01".to_string()));
}
