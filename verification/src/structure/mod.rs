//! The architecture model: forces, attractors and residues (analysis), and
//! the lexicon, component registry and iterations (definition).

pub mod analysis;
pub mod definition;
