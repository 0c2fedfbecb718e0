//! Enforces a single naming convention across one source file: a local
//! binding that is never read back carries exactly one leading underscore,
//! and a binding that is read at least once carries none.  The whole family
//! of spellings sharing one base name is renamed uniformly, from the
//! aggregate declaration and reference counts of the entire file.

pub mod analysis;
pub mod counter;
pub mod driver;
pub mod laws;
pub mod names;
pub mod sites;
