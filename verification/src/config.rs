//! Project configuration (`residual/config.toml`): validation policy, skill
//! token warning, and where the `residual/` directory is.

use vstd::prelude::*;

verus! {

/// The whole configuration.
#[derive(Debug, Clone)]
pub struct Config {
    pub validation: ValidationConfig,
    pub skills: SkillsConfig,
    /// The `residual/` directory in use (not read from the file).
    pub residual_dir: String,
}

/// `[validation]`.
#[derive(Debug, Clone, Copy, PartialEq, Eq, Structural)]
pub struct ValidationConfig {
    pub strict: bool,
}

/// `[skills]`.
#[derive(Debug, Clone, Copy, PartialEq, Eq, Structural)]
pub struct SkillsConfig {
    pub token_warn: usize,
}

/// `validation.strict` when the file leaves it out.
pub fn default_strict() -> (r: bool)
    ensures
        r == true,
{
    true
}

/// `skills.token_warn` when the file leaves it out.
pub fn default_token_warn() -> (r: usize)
    ensures
        r == 1000,
{
    1000
}

impl Default for ValidationConfig {
    fn default() -> (r: Self)
        ensures
            r.strict == true,
    {
        ValidationConfig { strict: default_strict() }
    }
}

impl Default for SkillsConfig {
    fn default() -> (r: Self)
        ensures
            r.token_warn == 1000,
    {
        SkillsConfig { token_warn: default_token_warn() }
    }
}

impl Default for Config {
    fn default() -> (r: Self)
        ensures
            r.validation.strict == true,
            r.skills.token_warn == 1000,
            r.residual_dir@ == "residual"@,
    {
        Config {
            validation: ValidationConfig::default(),
            skills: SkillsConfig::default(),
            residual_dir: String::from_str("residual"),
        }
    }
}

/// The `residual/` directory of a configuration.
pub fn residual_dir(cfg: &Config) -> (r: &str)
    ensures
        r@ == cfg.residual_dir@,
{
    cfg.residual_dir.as_str()
}

} // verus!
