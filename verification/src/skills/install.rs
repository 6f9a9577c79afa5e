//! Installed agent shims: where each agent keeps them, the thin passthrough
//! document, and the version a front-matter header declares.

use vstd::prelude::*;

use crate::text::{
    has_infix, is_ws, lemma_has_infix_middle, lemma_lines_first, strip_cr, has_prefix, lines, lines_of, parse_u32, parse_u32_str, starts_with_str, str_eq,
    contains_str, strip_prefix_str, trim, trim_str, views,
};

verus! {

/// The coding agents a skill can be installed for.
#[derive(Debug, Clone, Copy, PartialEq, Eq, Structural)]
pub enum Agent {
    Cursor,
    Copilot,
    Agnostic,
}

/// An agent name that is none of `cursor`, `copilot`, `agnostic`.
#[derive(Debug)]
pub struct UnknownAgent {
    pub name: String,
}

impl UnknownAgent {
    /// `unknown agent '<name>': must be cursor, copilot, or agnostic`.
    pub fn message(&self) -> (r: String)
        ensures
            r@ == "unknown agent '"@ + self.name@ + "': must be cursor, copilot, or agnostic"@,
    {
        let mut r = String::from_str("unknown agent '");
        r.append(self.name.as_str());
        r.append("': must be cursor, copilot, or agnostic");
        r
    }
}

/// The agent a name denotes (names are matched exactly, in lower case).
pub open spec fn agent_of(name: Seq<char>) -> Option<Agent> {
    if name == "cursor"@ {
        Some(Agent::Cursor)
    } else if name == "copilot"@ {
        Some(Agent::Copilot)
    } else if name == "agnostic"@ {
        Some(Agent::Agnostic)
    } else {
        None
    }
}

impl Agent {
    /// Reads an agent name.
    pub fn parse(s: &str) -> (r: Result<Agent, UnknownAgent>)
        ensures
            r is Ok <==> agent_of(s@) is Some,
            r matches Ok(a) ==> agent_of(s@) == Some(a),
            r matches Err(e) ==> e.name@ == s@,
    {
        if str_eq(s, "cursor") {
            Ok(Agent::Cursor)
        } else if str_eq(s, "copilot") {
            Ok(Agent::Copilot)
        } else if str_eq(s, "agnostic") {
            Ok(Agent::Agnostic)
        } else {
            Err(UnknownAgent { name: String::from_str(s) })
        }
    }
}

impl std::str::FromStr for Agent {
    type Err = UnknownAgent;

    fn from_str(s: &str) -> (r: Result<Agent, UnknownAgent>)
        ensures
            r is Ok <==> agent_of(s@) is Some,
            r matches Ok(a) ==> agent_of(s@) == Some(a),
            r matches Err(e) ==> e.name@ == s@,
    {
        Agent::parse(s)
    }
}

/// The directory, under the project or the home directory, where an agent
/// keeps installed skills.
pub open spec fn agent_dir(agent: Agent) -> Seq<char> {
    match agent {
        Agent::Cursor => ".cursor/rules"@,
        Agent::Copilot => ".github/copilot"@,
        Agent::Agnostic => ".residual/skills"@,
    }
}

/// The file name of skill `name` in that directory.
pub open spec fn skill_file_name(agent: Agent, name: Seq<char>) -> Seq<char> {
    match agent {
        Agent::Cursor => "residual-"@ + name + ".mdc"@,
        Agent::Copilot => "residual-"@ + name + ".md"@,
        Agent::Agnostic => name + ".md"@,
    }
}

/// Where skill `name` goes for `agent`: the directory (joined to the base
/// directory) and the file name (joined to that).
pub fn install_location(name: &str, agent: Agent) -> (r: (&'static str, String))
    ensures
        r.0@ == agent_dir(agent),
        r.1@ == skill_file_name(agent, name@),
{
    match agent {
        Agent::Cursor => {
            let mut f = String::from_str("residual-");
            f.append(name);
            f.append(".mdc");
            (".cursor/rules", f)
        },
        Agent::Copilot => {
            let mut f = String::from_str("residual-");
            f.append(name);
            f.append(".md");
            (".github/copilot", f)
        },
        Agent::Agnostic => {
            let mut f = String::from_str(name);
            f.append(".md");
            (".residual/skills", f)
        },
    }
}

/// The verb phrase the shim asks the agent to carry out.
pub open spec fn request_phrase(name: Seq<char>) -> Seq<char> {
    if name == "purpose-walk"@ {
        "walk the purposes"@
    } else if name == "naive-draft"@ {
        "draft a naïve architecture"@
    } else if name == "stressor-walk"@ {
        "walk the stressors"@
    } else if name == "integrate"@ {
        "integrate the residual architecture"@
    } else if name == "fmea"@ {
        "run FMEA"@
    } else if name == "atam"@ {
        "run ATAM"@
    } else if name == "tdd-implement"@ {
        "implement with R/G TDD and subagents"@
    } else {
        "apply this residual skill"@
    }
}

/// Verb and subject phrase for the installed agent shim.
pub fn skill_request_phrase(name: &str) -> (r: &'static str)
    ensures
        r@ == request_phrase(name@),
{
    if str_eq(name, "purpose-walk") {
        "walk the purposes"
    } else if str_eq(name, "naive-draft") {
        "draft a naïve architecture"
    } else if str_eq(name, "stressor-walk") {
        "walk the stressors"
    } else if str_eq(name, "integrate") {
        "integrate the residual architecture"
    } else if str_eq(name, "fmea") {
        "run FMEA"
    } else if str_eq(name, "atam") {
        "run ATAM"
    } else if str_eq(name, "tdd-implement") {
        "implement with R/G TDD and subagents"
    } else {
        "apply this residual skill"
    }
}

/// The text of the passthrough shim for skill `name`.
pub open spec fn stub_text(name: Seq<char>) -> Seq<char> {
    "---\nname: "@ + name + "\npassthrough: true\ndescription: Residual "@ + name
        + " — begin with residual skill show / skill data\n---\n\nThe operator has requested you (agent) "@
        + request_phrase(name) + " in this project. "@ + stub_request() + " "@ + name
        + "` and `residual skill data "@ + name + stub_tail()
}

/// The shim's opening request, which marks a shim without a header flag.
pub open spec fn stub_request() -> Seq<char> {
    "Begin by running `residual skill show"@
}

/// The end of the shim, after the last occurrence of the skill's name.
pub open spec fn stub_tail() -> Seq<char> {
    "`.\n\nWork Socratically throughout:\n- **Gather freely**: read commands (`skill show`, `skill data`, `list`, `matrix show`, …) without asking.\n- **Act only with approval**: any modification (`residual add …`, file writes) requires explicit operator sign-off.\n\n`skill data` reports verify status. Follow its strictness guidance before diving into analysis.\n"@
}

/// The thin installed shim: the agent fetches the full methodology from the
/// binary.
pub fn passthrough_stub(name: &str) -> (r: String)
    ensures
        r@ == stub_text(name@),
{
    let phrase = skill_request_phrase(name);
    let mut r = String::from_str("---\nname: ");
    r.append(name);
    r.append("\npassthrough: true\ndescription: Residual ");
    r.append(name);
    r.append(" — begin with residual skill show / skill data\n---\n\nThe operator has requested you (agent) ");
    r.append(phrase);
    r.append(" in this project. ");
    r.append("Begin by running `residual skill show");
    r.append(" ");
    r.append(name);
    r.append("` and `residual skill data ");
    r.append(name);
    r.append("`.\n\nWork Socratically throughout:\n- **Gather freely**: read commands (`skill show`, `skill data`, `list`, `matrix show`, …) without asking.\n- **Act only with approval**: any modification (`residual add …`, file writes) requires explicit operator sign-off.\n\n`skill data` reports verify status. Follow its strictness guidance before diving into analysis.\n");
    r
}

/// A front-matter line that marks a passthrough shim.
pub open spec fn passthrough_line(t: Seq<char>) -> bool {
    t == "passthrough: true"@ || (has_prefix(t, "passthrough:"@) && has_infix(t, "true"@))
}

/// Some line before the closing `---` (lines trimmed) marks a passthrough.
pub open spec fn flag_before_close(ls: Seq<Seq<char>>) -> bool
    decreases ls.len(),
{
    if ls.len() == 0 {
        false
    } else if trim(ls[0]) == "---"@ {
        false
    } else if passthrough_line(trim(ls[0])) {
        true
    } else {
        flag_before_close(ls.drop_first())
    }
}

/// Whether a document is a passthrough shim: with a front-matter header, a
/// `passthrough` flag in it or the shim's opening request; without one,
/// both `residual skill show` and `residual skill data`.
pub open spec fn is_stub(c: Seq<char>) -> bool {
    let ls = lines(c);
    if ls.len() == 0 || trim(ls[0]) != "---"@ {
        has_infix(c, "residual skill show"@) && has_infix(c, "residual skill data"@)
    } else {
        flag_before_close(ls.drop_first()) || has_infix(c, stub_request())
    }
}

/// Every passthrough shim is recognised as one, whatever the skill's name:
/// it opens a front-matter header and carries the shim's opening request.
pub proof fn lemma_stub_is_recognised(name: Seq<char>)
    ensures
        is_stub(stub_text(name)),
{
    let c = stub_text(name);
    let head = "---\nname: "@;
    reveal_strlit("---\nname: ");
    let rest = name + "\npassthrough: true\ndescription: Residual "@ + name
        + " — begin with residual skill show / skill data\n---\n\nThe operator has requested you (agent) "@
        + request_phrase(name) + " in this project. "@;
    let after = " "@ + name + "` and `residual skill data "@ + name + stub_tail();
    assert(c =~= head + rest + stub_request() + after);
    assert(c =~= head + (rest + stub_request() + after));
    assert(c[3] == '\n');
    lemma_lines_first(c, 3);
    assert(c.take(3) =~= "---"@) by {
        reveal_strlit("---");
    }
    assert(strip_cr("---"@) == "---"@) by {
        reveal_strlit("---");
    }
    assert(trim("---"@) == "---"@) by {
        reveal_strlit("---");
        assert(!is_ws("---"@[0]));
        assert(!is_ws("---"@.last()));
    }
    lemma_has_infix_middle(head + rest, stub_request(), after);
}

/// Whether an installed document is a passthrough shim.
pub fn is_passthrough_stub(content: &str) -> (r: bool)
    ensures
        r == is_stub(content@),
{
    let ls = lines_of(content);
    let ghost lv = views(ls@);
    if ls.len() == 0 || !str_eq(trim_str(ls[0].as_str()).as_str(), "---") {
        return contains_str(content, "residual skill show") && contains_str(content, "residual skill data");
    }
    assert(lv[0] == ls@[0]@);
    let mut i: usize = 1;
    while i < ls.len()
        invariant
            1 <= i <= ls@.len(),
            lv == views(ls@),
            lv == lines(content@),
            lv.len() > 0,
            trim(lv[0]) == "---"@,
            flag_before_close(lv.drop_first()) == flag_before_close(lv.skip(i as int)),
        decreases ls@.len() - i,
    {
        let t = trim_str(ls[i].as_str());
        assert(lv.skip(i as int)[0] == ls@[i as int]@);
        assert(lv.skip(i as int).drop_first() =~= lv.skip(i + 1));
        if str_eq(t.as_str(), "---") {
            return contains_str(content, "Begin by running `residual skill show");
        }
        if str_eq(t.as_str(), "passthrough: true") || (starts_with_str(t.as_str(), "passthrough:")
            && contains_str(t.as_str(), "true")) {
            return true;
        }
        i = i + 1;
    }
    assert(lv.skip(i as int) =~= Seq::<Seq<char>>::empty());
    contains_str(content, "Begin by running `residual skill show")
}

/// The version a front-matter header declares: the first `version:` line
/// (not trimmed before the prefix) whose rest, trimmed, is a `u32`, before
/// the closing `---`.
pub open spec fn version_before_close(ls: Seq<Seq<char>>) -> Option<u32>
    decreases ls.len(),
{
    if ls.len() == 0 {
        None
    } else if trim(ls[0]) == "---"@ {
        None
    } else if has_prefix(ls[0], "version:"@) && parse_u32(trim(ls[0].skip(8))) is Some {
        parse_u32(trim(ls[0].skip(8)))
    } else {
        version_before_close(ls.drop_first())
    }
}

/// The declared version of a document: none without a front-matter header.
pub open spec fn front_matter_version(c: Seq<char>) -> Option<u32> {
    let ls = lines(c);
    if ls.len() == 0 || trim(ls[0]) != "---"@ {
        None
    } else {
        version_before_close(ls.drop_first())
    }
}

/// Reads `version: N` from a document's front-matter header.
pub fn parse_version_from_front_matter(content: &str) -> (r: Option<u32>)
    ensures
        r == front_matter_version(content@),
{
    let ls = lines_of(content);
    let ghost lv = views(ls@);
    if ls.len() == 0 || !str_eq(trim_str(ls[0].as_str()).as_str(), "---") {
        return None;
    }
    assert(lv[0] == ls@[0]@);
    let mut i: usize = 1;
    while i < ls.len()
        invariant
            1 <= i <= ls@.len(),
            lv == views(ls@),
            lv == lines(content@),
            lv.len() > 0,
            trim(lv[0]) == "---"@,
            version_before_close(lv.drop_first()) == version_before_close(lv.skip(i as int)),
        decreases ls@.len() - i,
    {
        let line = &ls[i];
        assert(lv.skip(i as int)[0] == ls@[i as int]@);
        assert(lv.skip(i as int).drop_first() =~= lv.skip(i + 1));
        if str_eq(trim_str(line.as_str()).as_str(), "---") {
            return None;
        }
        match strip_prefix_str(line.as_str(), "version:") {
            Some(rest) => {
                proof {
                    reveal_strlit("version:");
                }
                match parse_u32_str(trim_str(rest.as_str()).as_str()) {
                    Some(v) => {
                        return Some(v);
                    },
                    None => {},
                }
            },
            None => {},
        }
        i = i + 1;
    }
    assert(lv.skip(i as int) =~= Seq::<Seq<char>>::empty());
    None
}

} // verus!
