//! An interactive algebraic calculator's verified core.
//!
//! A line of text is parsed into a symbolic equation (`parser`), rearranged
//! and constant-folded over exact decimals (`eval`, `dec`), displayed
//! (`term`, `console`), and progressively resolved as the user binds free
//! variables (`eval::Bindings`, `session`). Every function here carries a
//! contract against the spec functions that define the grammar and the
//! reduction; the interactive shell around it is ordinary I/O and lives
//! outside the library.

pub mod console;
pub mod dec;
pub mod eval;
pub mod parser;
pub mod session;
pub mod term;
