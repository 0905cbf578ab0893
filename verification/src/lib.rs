//! Variable-resolution core of an on-target debugger for embedded
//! microcontrollers.
//!
//! Given already-parsed type and location descriptors for the variables of a
//! halted firmware image, this crate discovers, caches, formats and mutates
//! their values:
//!
//! * [`variable::Variable`] is the tagged record describing one program
//!   variable: identity, type tag, location tag and value tag.
//! * [`cache::VariableCache`] owns all variables of a debug session, assigns
//!   unique keys and maintains the parent/child tree.
//! * [`scalar`] holds the codec that reads a typed scalar from target memory
//!   and writes an edited one back.
//! * [`memory::MemoryInterface`] is the handle through which target memory is
//!   reached; [`memory::SimulatedMemory`] is a verified in-process
//!   implementation used by the tests.

pub mod bytes;
pub mod cache;
pub mod error;
pub mod extract;
pub mod location;
pub mod memory;
pub mod numfmt;
pub mod scalar;
pub mod strutil;
pub mod types;
pub mod variable;
pub mod vtype;
