//! NKP residuality architecture library: the stressor × component matrix,
//! outcome and link verification, lexicon continuity, record ids and the
//! text the CLI hands to agents.

pub mod cli;
pub mod config;
pub mod nkp;
pub mod skills;
pub mod structure;
pub mod storage;
pub mod tags;
pub mod text;
pub mod verify;
