//! Property names.
//!
//! Symbols are interned by the host; this core only needs total order,
//! hashability and a distinguished dummy value used as the "no delta"
//! sentinel in a structure's `added` pair.

use vstd::prelude::*;

verus! {

/// An interned property name. `Dummy` is the "no delta" sentinel; `Key`
/// carries the host's intern identifier.
#[derive(Clone, Copy, PartialEq, Eq, Structural, Debug, Hash, PartialOrd, Ord)]
pub enum Symbol {
    Dummy,
    Key(u32),
}

impl Symbol {
    /// True iff this is the "no delta" sentinel.
    pub fn is_dummy(&self) -> (r: bool)
        ensures
            r == (*self is Dummy),
    {
        match self {
            Symbol::Dummy => true,
            Symbol::Key(_) => false,
        }
    }
}

} // verus!
