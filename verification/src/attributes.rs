//! Property attribute words.
//!
//! An [`AttrSafe`] is an opaque 32-bit word with total equality and a handful
//! of predicates. The distinguished `not_found` word marks the "no such
//! property" sentinel and is preserved bit-exactly wherever entries travel.

use vstd::prelude::*;

verus! {

/// Property is writable.
pub const ATTR_WRITABLE: u32 = 1;
/// Property shows up in enumeration.
pub const ATTR_ENUMERABLE: u32 = 2;
/// Property may be reconfigured or deleted.
pub const ATTR_CONFIGURABLE: u32 = 4;
/// Property is a data property (holds a value rather than accessors).
pub const ATTR_DATA: u32 = 8;
/// Property is an accessor property.
pub const ATTR_ACCESSOR: u32 = 16;
/// Sentinel bit: the word denotes "no such property".
pub const ATTR_EMPTY: u32 = 32;

/// A property attribute word. Total equality; the predicates below read
/// single bits of the raw word.
#[derive(Clone, Copy, PartialEq, Eq, Structural, Debug, Hash)]
pub struct AttrSafe {
    pub raw: u32,
}

impl AttrSafe {
    /// The bit test behind `is_not_found`.
    pub open spec fn spec_is_not_found(self) -> bool {
        self.raw & ATTR_EMPTY != 0
    }

    /// The bit test behind `is_enumerable`.
    pub open spec fn spec_is_enumerable(self) -> bool {
        self.raw & ATTR_ENUMERABLE != 0
    }

    /// The bit test behind `is_data`.
    pub open spec fn spec_is_data(self) -> bool {
        self.raw & ATTR_DATA != 0
    }

    /// The bit test behind `is_writable`.
    pub open spec fn spec_is_writable(self) -> bool {
        self.raw & ATTR_WRITABLE != 0
    }

    /// The bit test behind `is_simple_data`.
    pub open spec fn spec_is_simple_data(self) -> bool {
        self.spec_is_data() && self.spec_is_writable()
    }

    /// Wrap a raw attribute word.
    pub fn new(raw: u32) -> (r: Self)
        ensures
            r.raw == raw,
    {
        AttrSafe { raw }
    }

    /// The "no such property" sentinel word.
    pub fn not_found() -> (r: Self)
        ensures
            r.raw == ATTR_EMPTY,
            r.spec_is_not_found(),
    {
        proof {
            assert(ATTR_EMPTY & ATTR_EMPTY != 0) by (bit_vector);
        }
        AttrSafe { raw: ATTR_EMPTY }
    }

    /// Ordinary data-property attributes: writable, enumerable, configurable.
    pub fn object_data() -> (r: Self)
        ensures
            r.raw == ATTR_WRITABLE | ATTR_ENUMERABLE | ATTR_CONFIGURABLE | ATTR_DATA,
            !r.spec_is_not_found(),
            r.spec_is_enumerable(),
            r.spec_is_data(),
            r.spec_is_simple_data(),
    {
        proof {
            assert({
                let w = ATTR_WRITABLE | ATTR_ENUMERABLE | ATTR_CONFIGURABLE | ATTR_DATA;
                w & ATTR_EMPTY == 0 && w & ATTR_ENUMERABLE != 0 && w & ATTR_DATA != 0 && w
                    & ATTR_WRITABLE != 0
            }) by (bit_vector);
        }
        AttrSafe { raw: ATTR_WRITABLE | ATTR_ENUMERABLE | ATTR_CONFIGURABLE | ATTR_DATA }
    }

    /// Data-property attributes that stay out of enumeration.
    pub fn object_data_hidden() -> (r: Self)
        ensures
            r.raw == ATTR_WRITABLE | ATTR_CONFIGURABLE | ATTR_DATA,
            !r.spec_is_not_found(),
            !r.spec_is_enumerable(),
            r.spec_is_data(),
    {
        proof {
            assert({
                let w = ATTR_WRITABLE | ATTR_CONFIGURABLE | ATTR_DATA;
                w & ATTR_EMPTY == 0 && w & ATTR_ENUMERABLE == 0 && w & ATTR_DATA != 0
            }) by (bit_vector);
        }
        AttrSafe { raw: ATTR_WRITABLE | ATTR_CONFIGURABLE | ATTR_DATA }
    }

    /// The raw 32-bit word.
    pub fn raw(&self) -> (r: u32)
        ensures
            r == self.raw,
    {
        self.raw
    }

    /// True iff this word is the "no such property" sentinel.
    pub fn is_not_found(&self) -> (r: bool)
        ensures
            r == self.spec_is_not_found(),
    {
        self.raw & ATTR_EMPTY != 0
    }

    /// True iff the property shows up in enumeration.
    pub fn is_enumerable(&self) -> (r: bool)
        ensures
            r == self.spec_is_enumerable(),
    {
        self.raw & ATTR_ENUMERABLE != 0
    }

    /// True iff the property is a data property.
    pub fn is_data(&self) -> (r: bool)
        ensures
            r == self.spec_is_data(),
    {
        self.raw & ATTR_DATA != 0
    }

    /// True iff the property is a writable data property.
    pub fn is_simple_data(&self) -> (r: bool)
        ensures
            r == self.spec_is_simple_data(),
    {
        self.raw & ATTR_DATA != 0 && self.raw & ATTR_WRITABLE != 0
    }
}

} // verus!
