//! Skills: the analytical lenses the binary serves, their installed agent
//! shims, and the context each one is handed.

pub mod context;
pub mod definitions;
pub mod install;

use vstd::prelude::*;

use crate::skills::definitions::{ATAM, FMEA, INTEGRATE, NAIVE_DRAFT, PURPOSE_WALK, STRESSOR_WALK};
use crate::text::{byte_len, byte_length, decimal, decimal_string, str_eq};

verus! {

/// The skill names, in catalogue order.
pub open spec fn skill_names() -> Seq<Seq<char>> {
    seq!["purpose-walk"@, "naive-draft"@, "stressor-walk"@, "integrate"@, "fmea"@, "atam"@]
}

/// The document of the skill called `name`.
pub open spec fn skill_doc(name: Seq<char>) -> Option<Seq<char>> {
    if name == "purpose-walk"@ {
        Some(PURPOSE_WALK@)
    } else if name == "naive-draft"@ {
        Some(NAIVE_DRAFT@)
    } else if name == "stressor-walk"@ {
        Some(STRESSOR_WALK@)
    } else if name == "integrate"@ {
        Some(INTEGRATE@)
    } else if name == "fmea"@ {
        Some(FMEA@)
    } else if name == "atam"@ {
        Some(ATAM@)
    } else {
        None
    }
}

/// The version the catalogue gives every skill.
pub open spec fn catalogue_version() -> u32 {
    0
}

/// The catalogue: (name, document, version) for each skill, in order.
pub fn catalogue() -> (r: Vec<(&'static str, &'static str, u32)>)
    ensures
        r@.len() == skill_names().len(),
        forall|i: int|
            0 <= i < r@.len() ==> #[trigger] r@[i].0@ == skill_names()[i] && skill_doc(r@[i].0@)
                == Some(r@[i].1@) && r@[i].2 == catalogue_version(),
{
    let mut r: Vec<(&'static str, &'static str, u32)> = Vec::new();
    r.push(("purpose-walk", PURPOSE_WALK, 0));
    r.push(("naive-draft", NAIVE_DRAFT, 0));
    r.push(("stressor-walk", STRESSOR_WALK, 0));
    r.push(("integrate", INTEGRATE, 0));
    r.push(("fmea", FMEA, 0));
    r.push(("atam", ATAM, 0));
    proof {
        reveal_strlit("purpose-walk");
        reveal_strlit("naive-draft");
        reveal_strlit("stressor-walk");
        reveal_strlit("integrate");
        reveal_strlit("fmea");
        reveal_strlit("atam");
        assert("naive-draft"@.len() != "purpose-walk"@.len());
        assert("stressor-walk"@.len() != "purpose-walk"@.len());
        assert("stressor-walk"@.len() != "naive-draft"@.len());
        assert("integrate"@.len() != "purpose-walk"@.len());
        assert("atam"@[0] != "fmea"@[0]);
        assert(skill_doc("purpose-walk"@) == Some(PURPOSE_WALK@));
        assert(skill_doc("naive-draft"@) == Some(NAIVE_DRAFT@));
        assert(skill_doc("stressor-walk"@) == Some(STRESSOR_WALK@));
        assert(skill_doc("integrate"@) == Some(INTEGRATE@));
        assert(skill_doc("fmea"@) == Some(FMEA@));
        assert(skill_doc("atam"@) == Some(ATAM@));
    }
    r
}

/// The document and version of the skill called `name`.
pub fn find(name: &str) -> (r: Option<(&'static str, u32)>)
    ensures
        r is None <==> skill_doc(name@) is None,
        r matches Some(found) ==> skill_doc(name@) == Some(found.0@) && found.1
            == catalogue_version(),
{
    if str_eq(name, "purpose-walk") {
        Some((PURPOSE_WALK, 0))
    } else if str_eq(name, "naive-draft") {
        Some((NAIVE_DRAFT, 0))
    } else if str_eq(name, "stressor-walk") {
        Some((STRESSOR_WALK, 0))
    } else if str_eq(name, "integrate") {
        Some((INTEGRATE, 0))
    } else if str_eq(name, "fmea") {
        Some((FMEA, 0))
    } else if str_eq(name, "atam") {
        Some((ATAM, 0))
    } else {
        None
    }
}

/// Rough token count of a document: three quarters of its length in bytes,
/// rounded down.
pub fn estimate_tokens(content: &str) -> (r: usize)
    ensures
        r == 3 * byte_len(content@) / 4,
{
    let len = byte_length(content);
    let q = len / 4;
    let rem = len % 4;
    assert(3 * len / 4 == 3 * q + (3 * rem) / 4) by (nonlinear_arith)
        requires
            q == len / 4,
            rem == len % 4,
    ;
    3 * q + (3 * rem) / 4
}

/// What `skill check` reports for an installed copy against the catalogue.
pub open spec fn check_text(name: Seq<char>, agent: Seq<char>, installed: Option<u32>, embedded: u32) -> Seq<char> {
    match installed {
        None => "'"@ + name + "' is not installed for agent '"@ + agent + "'."@,
        Some(v) => if v == embedded {
            "'"@ + name + "' is up to date (version "@ + decimal(v as nat) + ")."@
        } else {
            "'"@ + name + "' is outdated: installed version "@ + decimal(v as nat)
                + ", embedded version "@ + decimal(embedded as nat) + "."@
        },
    }
}

/// The `skill check` line for `name` installed for `agent` (`installed` is
/// the version read from the installed copy, if any).
pub fn check_report(name: &str, agent: &str, installed: Option<u32>, embedded: u32) -> (r: String)
    ensures
        r@ == check_text(name@, agent@, installed, embedded),
{
    let mut r = String::from_str("'");
    r.append(name);
    match installed {
        None => {
            r.append("' is not installed for agent '");
            r.append(agent);
            r.append("'.");
        },
        Some(v) => {
            if v == embedded {
                r.append("' is up to date (version ");
                let d = decimal_string(v as u64);
                r.append(d.as_str());
                r.append(").");
            } else {
                r.append("' is outdated: installed version ");
                let d = decimal_string(v as u64);
                r.append(d.as_str());
                r.append(", embedded version ");
                let e = decimal_string(embedded as u64);
                r.append(e.as_str());
                r.append(".");
            }
        },
    }
    r
}

} // verus!
