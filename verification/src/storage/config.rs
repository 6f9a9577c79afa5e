//! The v3 storage configuration: format version, change detection and the
//! verification policy, rendered as `config.toml`.

use vstd::prelude::*;

use crate::text::{decimal, decimal_string};

verus! {

/// What `config.toml` holds in the v3 layout.
#[derive(Debug)]
pub struct StorageConfig {
    pub format_version: String,
    pub change_detection: bool,
    pub super_strict: bool,
    pub token_warn: usize,
    pub commit_msg_enforce: bool,
}

impl Clone for StorageConfig {
    fn clone(&self) -> (r: Self)
        ensures
            r == *self,
    {
        StorageConfig {
            format_version: self.format_version.clone(),
            change_detection: self.change_detection,
            super_strict: self.super_strict,
            token_warn: self.token_warn,
            commit_msg_enforce: self.commit_msg_enforce,
        }
    }
}

impl Default for StorageConfig {
    fn default() -> (r: Self)
        ensures
            r.format_version@ == "v3"@,
            r.change_detection == true,
            r.super_strict == true,
            r.token_warn == 1000,
            r.commit_msg_enforce == false,
    {
        StorageConfig {
            format_version: String::from_str("v3"),
            change_detection: true,
            super_strict: true,
            token_warn: 1000,
            commit_msg_enforce: false,
        }
    }
}

/// `true` or `false`, as TOML writes a boolean.
pub open spec fn bool_text(b: bool) -> Seq<char> {
    if b {
        "true"@
    } else {
        "false"@
    }
}

/// The first line of a rendered v3 configuration.
pub open spec fn v3_header() -> Seq<char> {
    "# residual v3 configuration\n"@
}

/// The table header that marks a v3 configuration.
pub open spec fn v3_storage_table() -> Seq<char> {
    "[storage]"@
}

/// The tables of a v3 configuration, after its first line.
pub open spec fn v3_body(c: StorageConfig) -> Seq<char> {
    v3_storage_table() + "\nformat_version = \""@ + c.format_version@ + "\"\nchange_detection = "@ + bool_text(
        c.change_detection,
    ) + "\n\n[verification]\nsuper_strict = "@ + bool_text(c.super_strict)
        + "\ncommit_msg_enforce = "@ + bool_text(c.commit_msg_enforce)
        + "\n\n[skills]\ntoken_warn = "@ + decimal(c.token_warn as nat) + "\n"@
}

fn push_bool(r: &mut String, b: bool)
    ensures
        final(r)@ == old(r)@ + bool_text(b),
{
    if b {
        r.append("true");
    } else {
        r.append("false");
    }
}

/// The tables of the configuration (everything after the first line).
pub fn render_body(c: &StorageConfig) -> (r: String)
    ensures
        r@ == v3_body(*c),
{
    let mut r = String::from_str("[storage]");
    r.append("\nformat_version = \"");
    r.append(c.format_version.as_str());
    r.append("\"\nchange_detection = ");
    push_bool(&mut r, c.change_detection);
    r.append("\n\n[verification]\nsuper_strict = ");
    push_bool(&mut r, c.super_strict);
    r.append("\ncommit_msg_enforce = ");
    push_bool(&mut r, c.commit_msg_enforce);
    r.append("\n\n[skills]\ntoken_warn = ");
    let d = decimal_string(c.token_warn as u64);
    r.append(d.as_str());
    r.append("\n");
    r
}

/// `config.toml` for a v3 configuration.
pub fn render_v3(c: &StorageConfig) -> (r: String)
    ensures
        r@ == v3_header() + v3_body(*c),
{
    let mut r = String::from_str("# residual v3 configuration\n");
    let body = render_body(c);
    r.append(body.as_str());
    r
}

} // verus!
