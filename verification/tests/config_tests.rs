use residual::config::{default_strict, default_token_warn, residual_dir, Config, SkillsConfig, ValidationConfig};

#[test]
fn defaults_strict_true() {
    let cfg = Config::default();
    assert!(cfg.validation.strict, "default strict should be true");
}

#[test]
fn defaults_token_warn_1000() {
    let cfg = Config::default();
    assert_eq!(cfg.skills.token_warn, 1000);
}

#[test]
fn default_sections_match_field_defaults() {
    assert_eq!(ValidationConfig::default().strict, default_strict());
    assert_eq!(SkillsConfig::default().token_warn, default_token_warn());
}

#[test]
fn default_residual_dir_is_residual() {
    let cfg = Config::default();
    assert_eq!(residual_dir(&cfg), "residual");
}
