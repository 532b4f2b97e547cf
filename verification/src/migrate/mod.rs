//! Migration bookkeeping that needs no database or file system: migration
//! file names and their order, what a migration history admits, how a
//! rename question is asked and answered, and how catalog spellings of
//! defaults and expressions are matched to the declared ones.

pub mod adopt;
pub mod defaults;
pub mod history;
pub mod prompt;
pub mod store;
