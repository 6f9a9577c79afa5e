//! Forces (purposes and stressors), attractors and residues.

pub mod attractors;
pub mod force;
pub mod purposes;
pub mod residues;
pub mod stressors;
