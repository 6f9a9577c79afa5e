use residual::structure::analysis::attractors::Attractor;
use residual::structure::analysis::force::{Force, ForceKind};
use residual::structure::analysis::purposes::Purpose;
use residual::structure::analysis::residues::{
    is_whole_system_residue, naive_change_accepts_whole_system, tag_naive_change_whole_system, Residue,
};
use residual::structure::analysis::stressors::Stressor;
use residual::structure::definition::lexicon::{check_force_lexicon_continuity, LexiconGap, Term};

#[test]
fn attractors_have_positive_and_negative_state_not_valence() {
    let a = Attractor::new(
        "A-01",
        "Architecture Clarity",
        "NKP data reflects the stress surface",
        "stressors are undefined; Ri collapses",
    );
    assert!(!a.positive_state.is_empty());
    assert!(!a.negative_state.is_empty());
    let debug = format!("{:?}", a);
    assert!(!debug.contains("valence"), "new attractor type must not have valence, got {debug}");
}

#[test]
fn force_is_half_of_residue() {
    let force = Force::purpose(
        "P-01",
        "auth-hub",
        "add auth without rewriting the hub",
        vec!["operator authenticates via residue mapping".into()],
    );
    let residue = Residue {
        id: "R-01".into(),
        force_id: force.id.clone(),
        component_id: "cli".into(),
        status: "proposed".into(),
        notes: String::new(),
    };
    assert_eq!(residue.force_id, force.id, "residue maps a force id");
    assert!(!residue.component_id.is_empty(), "residue maps a component id");
    assert_ne!(residue.force_id, residue.component_id, "force half and component half are distinct");
    assert!(!force.outcomes.is_empty(), "force carries outcomes (the narrative half)");
    let debug = format!("{:?}", force);
    assert!(!debug.to_lowercase().contains("trait"), "Force must not carry traits, got {debug}");
    assert!(!debug.to_lowercase().contains("component"), "Force must not carry component lists, got {debug}");
}

#[test]
fn purposes_and_stressors_carry_outcomes_not_traits() {
    let p = Purpose::new(
        "P-01",
        "add-purpose",
        "expose add-purpose without a session hub",
        vec!["operator records a purpose against an attractor".into()],
    );
    let s = Stressor::new(
        "S-01",
        "stub-skills",
        "stub skills so binary owns methodology",
        vec!["skill sessions follow binary methodology".into()],
    );
    assert!(!p.as_force().outcomes.is_empty(), "purposes must carry outcomes");
    assert!(!s.as_force().outcomes.is_empty(), "stressors must carry outcomes");
    assert!(matches!(p.as_force().kind, ForceKind::Purpose));
    assert!(matches!(s.as_force().kind, ForceKind::Stressor));
    for debug in [format!("{:?}", p), format!("{:?}", s)] {
        assert!(!debug.to_lowercase().contains("trait"), "forces must not carry traits, got {debug}");
    }
}

#[test]
fn lexicon_requires_term_in_outcome_and_shortname() {
    let terms = vec![Term::new("residue", "force + component mapping"), Term::new("attractor", "stable system state")];
    let ok = Force::purpose(
        "P-01",
        "residue-map",
        "map without traits",
        vec!["operator records a residue against an attractor".into()],
    );
    assert!(check_force_lexicon_continuity(&ok, &terms).is_ok());

    let bad_short = Force::purpose(
        "P-02",
        "xyzzy",
        "map without traits",
        vec!["operator records a residue against an attractor".into()],
    );
    assert!(check_force_lexicon_continuity(&bad_short, &terms).is_err());

    let bad_outcome =
        Force::purpose("P-03", "residue-map", "map without traits", vec!["operator does a thing".into()]);
    assert!(check_force_lexicon_continuity(&bad_outcome, &terms).is_err());
}

#[test]
fn lexicon_gaps_name_the_failing_part() {
    let mut terms = vec![Term::new("Residue", "r")];
    terms[0].aliases = " mapping | |zig".to_string();
    let f = Force::stressor("S-01", "residue-x", "n", vec!["a MAPPING b".into(), "nothing here".into()]);
    match check_force_lexicon_continuity(&f, &terms) {
        Err(gap @ LexiconGap::Outcome { .. }) => {
            assert_eq!(gap.message(), "force 'S-01' outcome[1] must contain ≥1 terminology word: 'nothing here'");
        }
        other => panic!("unexpected {:?}", other),
    }
    let g = Force::stressor("S-02", "zag", "n", vec![]);
    match check_force_lexicon_continuity(&g, &terms) {
        Err(gap @ LexiconGap::Shortname { .. }) => {
            assert_eq!(gap.message(), "force 'S-02' shortname 'zag' must contain ≥1 terminology word");
        }
        other => panic!("unexpected {:?}", other),
    }
    assert!(check_force_lexicon_continuity(&Force::stressor("S-03", "zig-zag", "n", vec![]), &terms).is_ok());
}

#[test]
fn whole_system_residues() {
    let r = Residue::whole_system("R-01", "S-01", "hardware zig");
    assert!(r.is_whole_system());
    assert!(is_whole_system_residue(&r));
    assert!(!Residue::new("R-02", "S-01", "cli").is_whole_system());
    assert_eq!(tag_naive_change_whole_system("swap disks"), "whole-system-residue: swap disks");
    assert_eq!(tag_naive_change_whole_system("Whole-System-Residue here"), "Whole-System-Residue here");
    assert!(naive_change_accepts_whole_system(&tag_naive_change_whole_system("swap disks")));
}
