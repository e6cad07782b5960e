//! Object-model core of a JavaScript engine: the heap-cell header protocol and
//! the hidden-class ("structure") transition system that backs fast property
//! access on plain objects.
//!
//! Managed references are represented as indices into per-kind arenas held by
//! [`structure::Space`]; the trace protocol, downcast discriminator and zap
//! semantics of the cell header are preserved over that representation.

pub mod array;
pub mod attributes;
pub mod builder;
pub mod cell;
pub mod deleted;
pub mod slot;
pub mod structure;
pub mod symbol;
pub mod table;
pub mod transitions;
