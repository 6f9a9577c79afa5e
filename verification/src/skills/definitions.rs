//! The skill documents the binary serves: Markdown with a front-matter
//! header (`name`, `version`).

use vstd::prelude::*;

verus! {

/// The `purpose-walk` skill.
pub const PURPOSE_WALK: &'static str = "---
name: purpose-walk
version: 0
---

# Purpose Walk

Socratically define the project's purposes until every purpose has feature-level precision and at least one verifiable trait.

## Rules
- No probabilities. No risk framing.
- Every purpose must produce at least one trait: `<subject> <verb> <predicate>` using terms from terminology.
- Push back until vagueness is resolved. A purpose like \"the system should be fast\" is not a purpose — it is an aspiration. Demand specifics.
- Every 3 turns, step into a critic role and adversarially challenge all stated purposes for hidden assumptions, missing actors, or unmeasurable traits.

## Before Starting
Run: `residual skill-data purpose-walk`

## During This Skill
- `residual add purpose --description \"...\" --attractor-id A-01 --feature \"...\" --traits \"...\" --components \"...\"`
- `residual add term --term \"...\" --definition \"...\"`
- `residual add attractor --name \"...\" --valence positive --description \"...\"`
- `residual list purposes` — review captured purposes

## Version Check
Run `residual skill-check purpose-walk --agent <your-agent>` before starting.
";

/// The `naive-draft` skill.
pub const NAIVE_DRAFT: &'static str = "---
name: naive-draft
version: 0
---

# Naive Draft

**Analytical lens (optional).** Sketch the simplest architecture that serves the captured purposes, before any stressor is applied.

## Rules
- Start from the purposes: every component must enable at least one purpose.
- Do not defend against stressors yet; the naive architecture is what the stressor walk will attack.
- Name components with terms from the lexicon.

## Before Starting
Run: `residual skill-data naive-draft`

## During This Skill
- `residual add purpose ...` when a missing purpose surfaces
- `residual add term ...` for each new component name
";

/// The `stressor-walk` skill.
pub const STRESSOR_WALK: &'static str = "---
name: stressor-walk
version: 1
---

# Stressor Walk

**Analytical lens (optional / a-la-carte).** Record stressors mid-session without phase ceremony — personas welcome, not a hard gate.

Socratically discover stressors and attractors by simulating the business environment — no probabilities, no consensus required.

## Interaction Pattern
This skill is Socratic.
- **Gather freely**: read commands (`skill-data`, `list`, `matrix show`, etc.) run without asking.
- **Act only with approval**: any modification — `residual add stressor`, `add attractor`, `add term`, `add persona` — requires explicit user sign-off before executing.

## Rules
- A stressor does not need to be likely. It only needs a coherent narrative describing how the system moves to a different attractor.
- Attractors are recurring states — positive (desired) or negative (survived).
- Trace information flows, not use cases or happy paths.
- For each persona loaded, voice their concerns as that persona before returning to architect mode.
- Watch for hyperliminal coupling: when a stressor affects two components that were not expected to be related.
- Examine **whole-system-residue** before defaulting to a software-only patch (hardware, process, organization, or policy zig).

## Before Starting
Run: `residual skill-data stressor-walk`
This provides current personas, attractors, and the naïve architecture.

## During This Skill
- `residual add stressor --description \"...\" --attractor-id A-01 --naive-change \"...\" --components \"C1,C2\"`
- Prefer `--whole-system --notes \"policy zig: ...\"` when the surviving change leaves the software boundary
- `residual add attractor --name \"...\" --positive-state \"...\" --negative-state \"...\" --description \"...\"`
- `residual add term --term \"...\" --definition \"...\"`
- `residual add persona --name \"...\" --role \"...\" --concerns \"...\"`
- `residual matrix show` — periodically check for emerging coupling patterns

## Version Check
Run `residual skill-check stressor-walk --agent <your-agent>` before starting.
";

/// The `integrate` skill.
pub const INTEGRATE: &'static str = "---
name: integrate
version: 1
---

# Integrate Analysis

**Analytical lens (optional).** Derive residual architecture from the NKP matrix.

## Rules
- Examine **whole-system-residue** before defaulting to a software-only patch when recording new stressors.

## During This Skill
- `residual add stressor ... --whole-system --notes \"hardware zig: ...\"` when the surviving change leaves the software boundary
- `residual add stressor ...` for newly discovered stressors

## Before Starting
Run: `residual skill-data integrate`
";

/// The `fmea` skill.
pub const FMEA: &'static str = "---
name: fmea
version: 1
---

# FMEA — Failure Mode and Effects Analysis

**Analytical lens (optional).** Walk failure modes once architecture is stable.

## Rules
- Examine **whole-system-residue** before defaulting to a software-only patch.

## During This Skill
- `residual add stressor ... --whole-system --notes \"policy zig: ...\"` when the surviving change leaves the software boundary
- Record findings in the current iteration markdown

## Before Starting
Run: `residual skill-data fmea`
";

/// The `atam` skill.
pub const ATAM: &'static str = "---
name: atam
version: 0
---

# ATAM — Architecture Tradeoff Analysis Method

**Analytical lens (optional).** Weigh the residual architecture's quality-attribute tradeoffs once the integrate step has settled.

## Rules
- Tie every tradeoff to a stressor or purpose already recorded.
- Examine sensitivity points and risks against the NKP summary, not intuition.

## Before Starting
Run: `residual skill-data atam`
";

} // verus!
