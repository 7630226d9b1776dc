//! A parser for the table of commands of a storage cluster's monitor, and a
//! writer of Python bindings for them.
//!
//! The table is a document of `COMMAND(...)` and `COMMAND_WITH_FLAG(...)`
//! invocations among comments and white space. Each invocation gives a
//! signature (literal words and typed parameters), a help text, a module,
//! permissions, an availability and, for the second form, flags.
//!
//! * [`bytes`]: parse results and the scanning primitives.
//! * [`text`]: operations on text, character by character.
//! * [`types`]: the data model.
//! * [`attrs`]: the attribute grammars of a parameter descriptor.
//! * [`param`]: parameter descriptors.
//! * [`signature`]: signatures.
//! * [`command`]: insignificant input, fields, commands and documents.
//! * [`rename`]: method names and the marking of duplicates.
//! * [`descriptor`]: signatures written back as text.
//! * [`emit`]: the Python text that is written.
//! * [`suffix`]: every grammar reads from the front of its input.
//! * [`laws`]: what holds of the grammar as a whole.
//!
//! Every grammar has a specification function that says what it accepts and
//! what it gives, and the function that reads input is proved to compute it.

pub mod attrs;
pub mod bytes;
pub mod command;
pub mod descriptor;
pub mod emit;
pub mod laws;
pub mod param;
pub mod rename;
pub mod signature;
pub mod suffix;
pub mod text;
pub mod types;
