//! Variable inlining for a resolved JavaScript syntax tree.
//!
//! The pass replaces reads of local variables by what the variables hold,
//! wherever it can follow the value from its declaration or assignment to
//! the read. It walks the program twice: [`analysis`] records for every
//! binding how it is read and written, [`rewrite`] replaces. Whatever the
//! analysis cannot follow it marks, and what is marked is left alone.
//!
//! ```text
//! let mut pass = inlining(Config {});
//! loop {
//!     program = pass.fold(&program);
//!     if !pass.changed() { break; }
//!     pass.reset();
//! }
//! ```
//!
//! - [`ast`]: the syntax tree.
//! - [`scope`]: the scopes, the record of each binding, the constants.
//! - [`analysis`], [`rewrite`]: the two walks.
//! - [`pass`]: the pass and one run of it.
//! - [`laws`], [`keeps`], [`scope_lemmas`]: what holds of the pass whatever
//!   the program.
//! - [`output`], [`source_map`], [`swcrc`]: what a compiler around the pass
//!   hands back, reads from its input, and says of a configuration file that
//!   it cannot read.

pub mod analysis;
pub mod ast;
pub mod keeps;
pub mod laws;
pub mod output;
pub mod pass;
pub mod rewrite;
pub mod scope;
pub mod scope_lemmas;
pub mod source_map;
pub mod swcrc;

pub use crate::output::TransformOutput;
pub use crate::pass::{inlining, Config};
