use residual::cli::MatrixSortBy;
use residual::nkp::criticality::{assess_zone, zone, Zone};
use residual::nkp::matrix::{default_fission_threshold, filter_stressors, sort_stressors, NkpMatrix};
use residual::nkp::{attractor_names, force_shortnames, NameMap};
use residual::storage::purposes::Purpose;
use residual::storage::stressors::Stressor;
use residual::structure::analysis::attractors::Attractor;

fn make_stressor(id: &str, attractor: &str, components: &str) -> Stressor {
    Stressor {
        id: id.to_string(),
        shortname: String::new(),
        description: "desc".to_string(),
        attractor_id: attractor.to_string(),
        naive_change: "change".to_string(),
        outcomes: "system handles auth".to_string(),
        components_affected: components.to_string(),
    }
}

fn two_by_three() -> Vec<Stressor> {
    vec![
        make_stressor("S-01", "A-01", "auth,db"),
        make_stressor("S-02", "A-02", "db,cache"),
    ]
}

fn position(m: &NkpMatrix, name: &str) -> usize {
    m.components.iter().position(|c| c == name).unwrap()
}

#[test]
fn build_correct_cells() {
    let stressors = two_by_three();
    let m = NkpMatrix::build(&stressors);
    let auth_idx = position(&m, "auth");
    let db_idx = position(&m, "db");
    let cache_idx = position(&m, "cache");
    assert_eq!(m.cells[0][auth_idx], 1);
    assert_eq!(m.cells[1][auth_idx], 0);
    assert_eq!(m.cells[0][db_idx], 1);
    assert_eq!(m.cells[1][db_idx], 1);
    assert_eq!(m.cells[0][cache_idx], 0);
    assert_eq!(m.cells[1][cache_idx], 1);
    assert_eq!(m.attractor_ids, vec!["A-01", "A-02"]);
}

#[test]
fn n_equals_stressors_plus_components() {
    let m = NkpMatrix::build(&two_by_three());
    assert_eq!(m.n(), 5);
}

#[test]
fn k_equals_count_of_ones() {
    let m = NkpMatrix::build(&two_by_three());
    assert_eq!(m.k(), 4);
}

#[test]
fn row_totals() {
    let m = NkpMatrix::build(&two_by_three());
    let rt = m.row_totals();
    assert_eq!(rt, vec![2, 2]);
}

#[test]
fn col_totals() {
    let m = NkpMatrix::build(&two_by_three());
    let ct = m.col_totals();
    let db_idx = position(&m, "db");
    assert_eq!(ct[db_idx], 2);
}

#[test]
fn hyperliminal_pairs_finds_shared_stressors() {
    let stressors = vec![
        make_stressor("S-01", "A-01", "auth,db"),
        make_stressor("S-02", "A-01", "auth,db"),
        make_stressor("S-03", "A-01", "auth,db"),
    ];
    let m = NkpMatrix::build(&stressors);
    assert!(!m.hyperliminal_pairs().is_empty());
}

#[test]
fn hyperliminal_pairs_empty_when_no_shared() {
    let stressors = vec![
        make_stressor("S-01", "A-01", "auth"),
        make_stressor("S-02", "A-01", "db"),
    ];
    let m = NkpMatrix::build(&stressors);
    assert!(m.hyperliminal_pairs().is_empty());
}

#[test]
fn fusion_candidates_identical_column_vectors() {
    let stressors = vec![
        make_stressor("S-01", "A-01", "auth,twin"),
        make_stressor("S-02", "A-01", "auth,twin"),
    ];
    let m = NkpMatrix::build(&stressors);
    let fusions = m.fusion_candidates();
    assert!(fusions
        .iter()
        .any(|(a, b)| (a == "auth" && b == "twin") || (a == "twin" && b == "auth")));
}

#[test]
fn fission_candidates_above_threshold() {
    let stressors = vec![
        make_stressor("S-01", "A-01", "db"),
        make_stressor("S-02", "A-01", "db"),
        make_stressor("S-03", "A-01", "db"),
    ];
    let m = NkpMatrix::build(&stressors);
    assert!(m.fission_candidates(2).contains(&"db".to_string()));
}

#[test]
fn filter_by_attractor_id() {
    let out = filter_stressors(&two_by_three(), &["A-02".to_string()], &NameMap::new());
    assert_eq!(out.len(), 1);
    assert_eq!(out[0].id, "S-02");
}

#[test]
fn sort_by_attractor_groups() {
    let stressors = vec![
        make_stressor("S-02", "A-02", "db"),
        make_stressor("S-01", "A-01", "auth"),
        make_stressor("S-03", "A-01", "cache"),
    ];
    let sorted = sort_stressors(stressors, MatrixSortBy::Attractor, &NameMap::new());
    assert_eq!(
        sorted.iter().map(|s| s.id.as_str()).collect::<Vec<_>>(),
        vec!["S-01", "S-03", "S-02"]
    );
}

#[test]
fn sort_alphabetical_by_shortname() {
    let stressors = two_by_three();
    let mut sn = NameMap::new();
    sn.insert("S-01".to_string(), "zeta".to_string());
    sn.insert("S-02".to_string(), "alpha".to_string());
    let sorted = sort_stressors(stressors, MatrixSortBy::Alphabetical, &sn);
    assert_eq!(sorted[0].id, "S-02");
    assert_eq!(sorted[1].id, "S-01");
}

#[test]
fn csv_includes_attractor_separators_and_totals() {
    let stressors = sort_stressors(two_by_three(), MatrixSortBy::Attractor, &NameMap::new());
    let m = NkpMatrix::build(&stressors);
    let mut names = NameMap::new();
    names.insert("A-01".to_string(), "Clarity".to_string());
    names.insert("A-02".to_string(), "Drift".to_string());
    let buf = m.write_csv(&NameMap::new(), &names, MatrixSortBy::Attractor).unwrap();
    let csv = String::from_utf8(buf).unwrap();
    assert!(csv.contains("── A-01 · Clarity ──"), "csv={csv}");
    assert!(csv.contains("── A-02 · Drift ──"), "csv={csv}");
    assert!(csv.lines().any(|l| l.starts_with("total,")), "csv={csv}");
}

#[test]
fn csv_includes_row_and_column_totals() {
    let m = NkpMatrix::build(&two_by_three());
    let buf = m.write_csv(&NameMap::new(), &NameMap::new(), MatrixSortBy::Id).unwrap();
    let csv = String::from_utf8(buf).unwrap();
    let lines: Vec<&str> = csv.lines().collect();
    assert!(lines[0].ends_with(",total"), "header={}", lines[0]);
    let totals = *lines.last().unwrap();
    assert!(totals == "total,1,2,1,4", "col totals + grand: {totals}");
}

#[test]
fn csv_uses_force_shortnames_as_row_labels() {
    let m = NkpMatrix::build(&two_by_three());
    let mut shortnames = NameMap::new();
    shortnames.insert("S-01".to_string(), "skill-version-drift".to_string());
    shortnames.insert("S-02".to_string(), "lexicon-scale-lag".to_string());
    let buf = m.write_csv(&shortnames, &NameMap::new(), MatrixSortBy::Id).unwrap();
    let csv = String::from_utf8(buf).unwrap();
    assert!(csv.contains("skill-version-drift"), "csv={csv}");
    assert!(csv.contains("lexicon-scale-lag"), "csv={csv}");
}

fn k_per_n(m: &NkpMatrix) -> f64 {
    if m.n() == 0 {
        0.0
    } else {
        m.k() as f64 / m.n() as f64
    }
}

#[test]
fn assess_empty_matrix_is_undercritical() {
    let m = NkpMatrix::build(&[]);
    assert_eq!(k_per_n(&m), 0.0);
    assert!(
        assess_zone(&m).assessment().contains("under-connected"),
        "empty matrix should be under-connected"
    );
}

#[test]
fn assess_critical_zone() {
    let s = vec![make_stressor("S-01", "A-01", "auth,db"), make_stressor("S-02", "A-01", "auth,db")];
    let m = NkpMatrix::build(&s);
    let r = k_per_n(&m);
    assert!(r >= 0.5 && r <= 3.0, "K/N={} should be in critical zone", r);
    assert!(assess_zone(&m).assessment().contains("critical"), "expected 'critical' in assessment");
}

#[test]
fn assess_overcritical() {
    let comps = (0..8).map(|i| format!("c{}", i)).collect::<Vec<_>>().join(",");
    let s: Vec<Stressor> = (0..8)
        .map(|i| make_stressor(&format!("S-{:02}", i + 1), "A-01", &comps))
        .collect();
    let m = NkpMatrix::build(&s);
    assert!(k_per_n(&m) > 3.0, "K/N={} should exceed 3.0 for 8x8 full matrix", k_per_n(&m));
    assert!(assess_zone(&m).assessment().contains("over-connected"), "expected 'over-connected' assessment");
}

#[test]
fn assess_undercritical_single_stressor_no_components() {
    let s = vec![make_stressor("S-01", "A-01", "")];
    let m = NkpMatrix::build(&s);
    assert!(k_per_n(&m) < 0.5, "expected under-connected, K/N={}", k_per_n(&m));
    assert!(assess_zone(&m).assessment().contains("under-connected"));
}

#[test]
fn zone_boundaries_are_inclusive() {
    assert_eq!(zone(0, 0), Zone::UnderConnected);
    assert_eq!(zone(4, 1), Zone::UnderConnected);
    assert_eq!(zone(4, 2), Zone::Critical);
    assert_eq!(zone(4, 12), Zone::Critical);
    assert_eq!(zone(4, 13), Zone::OverConnected);
}

#[test]
fn reorder_keeps_row_totals_and_k() {
    let stressors = vec![
        make_stressor("S-01", "A-01", "a,b,c"),
        make_stressor("S-02", "A-01", "c"),
        make_stressor("S-03", "A-02", "b,c"),
    ];
    let mut m = NkpMatrix::build(&stressors);
    let k = m.k();
    let rows = m.row_totals();
    m.reorder_columns_fusion_fission();
    assert_eq!(m.k(), k);
    assert_eq!(m.row_totals(), rows);
    assert_eq!(m.components[0], "c");
}

#[test]
fn column_totals_sum_to_k() {
    let m = NkpMatrix::build(&two_by_three());
    let by_cols: usize = m.col_totals().iter().sum();
    let by_rows: usize = m.row_totals().iter().sum();
    assert_eq!(by_cols, m.k());
    assert_eq!(by_rows, m.k());
}

#[test]
fn filter_without_terms_keeps_everything() {
    let out = filter_stressors(&two_by_three(), &[" , ".to_string()], &NameMap::new());
    assert_eq!(out.len(), 2);
}

#[test]
fn name_maps_prefer_later_entries() {
    let mut s = make_stressor("S-01", "A-01", "auth");
    s.shortname = "first".to_string();
    let p = Purpose {
        id: "S-01".to_string(),
        shortname: "second".to_string(),
        description: String::new(),
        attractor_id: String::new(),
        naive_change: String::new(),
        outcomes: String::new(),
        components: String::new(),
    };
    let names = force_shortnames(&[s], &[p]);
    assert_eq!(names.get(&"S-01".to_string()), Some("second".to_string()));
    assert_eq!(names.get_or_key(&"S-09".to_string()), "S-09");
    let a = attractor_names(&[Attractor::new("A-01", "Clarity", "up", "down")]);
    assert_eq!(a.get(&"A-01".to_string()), Some("Clarity".to_string()));
}

#[test]
fn reorder_puts_fusion_clusters_before_remaining_columns() {
    let mut m = NkpMatrix {
        stressor_ids: vec!["S-01".to_string(), "S-02".to_string()],
        attractor_ids: vec!["A-01".to_string(), "A-01".to_string()],
        components: vec!["a".to_string(), "x".to_string(), "y".to_string()],
        cells: vec![vec![1, 0, 0], vec![0, 1, 1]],
    };
    m.reorder_columns_fusion_fission();
    assert_eq!(m.components, vec!["x".to_string(), "y".to_string(), "a".to_string()]);
    assert_eq!(m.cells, vec![vec![0, 0, 1], vec![1, 1, 0]]);
}

#[test]
fn reorder_puts_fission_first_then_clusters_then_names() {
    // Four rows: threshold 2. Column f has total 3 (fission); p and q are
    // identical (a cluster); b and a stand alone.
    // (b's column is 1,0,0,1 and a's 0,1,0,0.)
    let mut m = NkpMatrix {
        stressor_ids: vec!["S-01".into(), "S-02".into(), "S-03".into(), "S-04".into()],
        attractor_ids: vec!["A-01".into(), "A-01".into(), "A-01".into(), "A-01".into()],
        components: vec!["b".into(), "q".into(), "a".into(), "f".into(), "p".into()],
        cells: vec![vec![1, 1, 0, 1, 1], vec![0, 0, 1, 1, 0], vec![0, 0, 0, 1, 0], vec![1, 0, 0, 0, 0]],
    };
    m.reorder_columns_fusion_fission();
    assert_eq!(m.components, vec!["f", "p", "q", "a", "b"]);
}

#[test]
fn filter_matches_shortname_not_description() {
    let mut sn = NameMap::new();
    sn.insert("S-01".to_string(), "Cache-Warmup".to_string());
    // make_stressor gives every stressor the description "desc".
    let by_description = filter_stressors(&two_by_three(), &["desc".to_string()], &sn);
    assert!(by_description.is_empty());
    let by_shortname = filter_stressors(&two_by_three(), &["warm".to_string()], &sn);
    assert_eq!(by_shortname.len(), 1);
    assert_eq!(by_shortname[0].id, "S-01");
}

#[test]
fn default_fission_threshold_is_half_the_rows_at_least_one() {
    assert_eq!(default_fission_threshold(0), 1);
    assert_eq!(default_fission_threshold(1), 1);
    assert_eq!(default_fission_threshold(5), 2);
    assert_eq!(default_fission_threshold(8), 4);
}
