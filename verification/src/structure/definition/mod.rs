//! The lexicon, the component registry and architecture iterations.

pub mod components;
pub mod iterations;
pub mod lexicon;
