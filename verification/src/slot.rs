//! Property access slots: the result of a property lookup, carrying the
//! stored value and attributes, the base object the property was found on,
//! the slot offset, and inline-cache bookkeeping bits.

use vstd::prelude::*;

use crate::attributes::AttrSafe;
use crate::cell::Gc;
use crate::structure::JsObject;

verus! {

/// The slot has been consumed by a write.
pub const SLOT_FLAG_USED: u32 = 1;
/// Loads through this slot may be cached.
pub const SLOT_FLAG_CACHEABLE: u32 = 2;
/// Stores through this slot may be cached.
pub const SLOT_FLAG_PUT_CACHEABLE: u32 = 4;
/// Stores through this slot must never be cached.
pub const SLOT_FLAG_FORCE_PUT_UNCACHEABLE: u32 = 8;
/// The flag word of a fresh slot.
pub const SLOT_FLAG_INIT: u32 = SLOT_FLAG_CACHEABLE;
/// Bit position of the put-result kind.
pub const SLOT_PUT_SHIFT: u32 = 4;
/// Width mask of the put-result kind.
pub const SLOT_PUT_MASK: u32 = 3;

/// A boxed JS value word; its interpretation lives outside this core.
#[derive(Clone, Copy, PartialEq, Eq, Structural, Debug)]
pub struct JsValue {
    pub raw: u64,
}

/// The boxed encoding of `undefined`.
pub const JS_VALUE_UNDEFINED: u64 = 0x0a;

impl JsValue {
    /// The `undefined` value.
    pub fn undefined() -> (r: Self)
        ensures
            r.raw == JS_VALUE_UNDEFINED,
    {
        JsValue { raw: JS_VALUE_UNDEFINED }
    }
}

/// A property's stored value and attribute word.
#[derive(Clone, Copy, PartialEq, Eq, Structural, Debug)]
pub struct StoredSlot {
    value: JsValue,
    attributes: AttrSafe,
}

impl StoredSlot {
    /// The stored value.
    pub closed spec fn spec_value(&self) -> JsValue {
        self.value
    }

    /// The attribute word.
    pub closed spec fn spec_attributes(&self) -> AttrSafe {
        self.attributes
    }

    /// Build from a value and attributes.
    pub fn new_raw(value: JsValue, attributes: AttrSafe) -> (r: Self)
        ensures
            r.spec_value() == value,
            r.spec_attributes() == attributes,
    {
        StoredSlot { value, attributes }
    }

    /// The stored value.
    pub fn value(&self) -> (r: JsValue)
        ensures
            r == self.spec_value(),
    {
        self.value
    }

    /// The attribute word.
    pub fn attributes(&self) -> (r: AttrSafe)
        ensures
            r == self.spec_attributes(),
    {
        self.attributes
    }

    /// Overwrite value and attributes.
    pub fn set(&mut self, value: JsValue, attributes: AttrSafe)
        ensures
            final(self).spec_value() == value,
            final(self).spec_attributes() == attributes,
    {
        self.value = value;
        self.attributes = attributes;
    }
}

/// What a property store through a slot did.
#[derive(Clone, Copy, PartialEq, Eq, Structural, Debug, PartialOrd, Ord)]
pub enum PutResultType {
    Nothing,
    Replace,
    New,
    IndexedOptimized,
}

/// The two-bit encoding of a put-result kind.
pub open spec fn put_result_bits(t: PutResultType) -> u32 {
    match t {
        PutResultType::Nothing => 0,
        PutResultType::Replace => 1,
        PutResultType::New => 2,
        PutResultType::IndexedOptimized => 3,
    }
}

/// The put-result kind with a given two-bit encoding.
pub open spec fn put_result_of_bits(b: u32) -> PutResultType {
    if b == 0 {
        PutResultType::Nothing
    } else if b == 1 {
        PutResultType::Replace
    } else if b == 2 {
        PutResultType::New
    } else {
        PutResultType::IndexedOptimized
    }
}

/// The result of a property lookup.
pub struct Slot {
    pub parent: StoredSlot,
    base: Option<Gc<JsObject>>,
    offset: u32,
    flags: u32,
}

impl Slot {
    /// The stored value and attributes.
    pub closed spec fn spec_parent(&self) -> StoredSlot {
        self.parent
    }

    /// The raw flag word.
    pub closed spec fn spec_flags(&self) -> u32 {
        self.flags
    }

    /// The base object the property was found on.
    pub closed spec fn spec_base(&self) -> Option<Gc<JsObject>> {
        self.base
    }

    /// The slot offset, `u32::MAX` when none.
    pub closed spec fn spec_offset(&self) -> u32 {
        self.offset
    }

    /// Loads may be cached.
    pub closed spec fn spec_is_cacheable(&self) -> bool {
        self.flags & SLOT_FLAG_CACHEABLE != 0
    }

    /// The slot has been consumed.
    pub closed spec fn spec_is_used(&self) -> bool {
        self.flags & SLOT_FLAG_USED != 0
    }

    /// A put through this slot was recorded as cacheable.
    pub closed spec fn spec_put_cacheable_bit(&self) -> bool {
        self.flags & SLOT_FLAG_PUT_CACHEABLE != 0
    }

    /// Puts were forced uncacheable.
    pub closed spec fn spec_force_put_uncacheable(&self) -> bool {
        self.flags & SLOT_FLAG_FORCE_PUT_UNCACHEABLE != 0
    }

    /// The recorded put-result bits.
    pub closed spec fn spec_put_bits(&self) -> u32 {
        (self.flags >> SLOT_PUT_SHIFT) & SLOT_PUT_MASK
    }

    fn is_cacheable(&self) -> (r: bool)
        ensures
            r == self.spec_is_cacheable(),
    {
        (self.flags & SLOT_FLAG_CACHEABLE) != 0
    }

    fn is_put_force_unchacheable(&self) -> (r: bool)
        ensures
            r == self.spec_force_put_uncacheable(),
    {
        (self.flags & SLOT_FLAG_FORCE_PUT_UNCACHEABLE) != 0
    }

    fn set_put_result_type(&mut self, ty: PutResultType)
        ensures
            final(self).spec_put_bits() == put_result_bits(ty),
            final(self).spec_is_cacheable() == old(self).spec_is_cacheable(),
            final(self).spec_is_used() == old(self).spec_is_used(),
            final(self).spec_put_cacheable_bit() == old(self).spec_put_cacheable_bit(),
            final(self).spec_force_put_uncacheable() == old(self).spec_force_put_uncacheable(),
            final(self).spec_parent() == old(self).spec_parent(),
            final(self).spec_base() == old(self).spec_base(),
            final(self).spec_offset() == old(self).spec_offset(),
    {
        let b: u32 = match ty {
            PutResultType::Nothing => 0,
            PutResultType::Replace => 1,
            PutResultType::New => 2,
            PutResultType::IndexedOptimized => 3,
        };
        let f = self.flags;
        self.flags = (f & !(SLOT_PUT_MASK << SLOT_PUT_SHIFT)) | (b << SLOT_PUT_SHIFT);
        proof {
            assert((((f & !(3u32 << 4)) | (b << 4)) >> 4) & 3 == b && ((f & !(3u32 << 4)) | (b
                << 4)) & 1 == f & 1 && ((f & !(3u32 << 4)) | (b << 4)) & 2 == f & 2 && ((f & !(3u32
                << 4)) | (b << 4)) & 4 == f & 4 && ((f & !(3u32 << 4)) | (b << 4)) & 8 == f & 8)
                by (bit_vector)
                requires
                    b <= 3,
            ;
        }
    }

    /// The recorded put-result kind.
    pub fn put_result_type(&self) -> (r: PutResultType)
        ensures
            r == put_result_of_bits(self.spec_put_bits()),
    {
        let b = (self.flags >> SLOT_PUT_SHIFT) & SLOT_PUT_MASK;
        proof {
            let f = self.flags;
            assert((f >> 4) & 3 <= 3) by (bit_vector);
        }
        if b == 0 {
            PutResultType::Nothing
        } else if b == 1 {
            PutResultType::Replace
        } else if b == 2 {
            PutResultType::New
        } else {
            PutResultType::IndexedOptimized
        }
    }

    /// Record what a put did and at which offset, and mark puts cacheable.
    pub fn mark_put_result(&mut self, ty: PutResultType, offset: u32)
        ensures
            final(self).spec_put_bits() == put_result_bits(ty),
            final(self).spec_offset() == offset,
            final(self).spec_put_cacheable_bit(),
            final(self).spec_is_cacheable() == old(self).spec_is_cacheable(),
            final(self).spec_is_used() == old(self).spec_is_used(),
            final(self).spec_force_put_uncacheable() == old(self).spec_force_put_uncacheable(),
            final(self).spec_parent() == old(self).spec_parent(),
            final(self).spec_base() == old(self).spec_base(),
    {
        self.set_put_result_type(ty);
        self.offset = offset;
        let f = self.flags;
        self.flags = f | SLOT_FLAG_PUT_CACHEABLE;
        proof {
            assert((f | 4u32) & 4 != 0 && (f | 4u32) & 1 == f & 1 && (f | 4u32) & 2 == f & 2 && (f
                | 4u32) & 8 == f & 8 && ((f | 4u32) >> 4) & 3 == (f >> 4) & 3) by (bit_vector);
        }
    }

    /// The slot has been consumed by a write.
    pub fn is_used(&self) -> (r: bool)
        ensures
            r == self.spec_is_used(),
    {
        (self.flags & SLOT_FLAG_USED) != 0
    }

    /// Reset to the fresh state.
    pub fn clear(&mut self)
        ensures
            final(self).spec_parent().spec_value().raw == JS_VALUE_UNDEFINED,
            final(self).spec_parent().spec_attributes().spec_is_not_found(),
            final(self).spec_flags() == SLOT_FLAG_INIT,
            final(self).spec_base() is None,
            final(self).spec_offset() == u32::MAX,
            final(self).spec_is_cacheable(),
            !final(self).spec_is_used(),
            !final(self).spec_put_cacheable_bit(),
            !final(self).spec_force_put_uncacheable(),
            final(self).spec_put_bits() == 0,
    {
        self.set(JsValue::undefined(), AttrSafe::not_found());
        self.flags = SLOT_FLAG_INIT;
        self.base = None;
        self.offset = u32::MAX;
        proof {
            assert(2u32 & 2 != 0 && 2u32 & 1 == 0 && 2u32 & 4 == 0 && 2u32 & 8 == 0 && (2u32 >> 4)
                & 3 == 0) by (bit_vector);
        }
    }

    /// Clear the used bit.
    pub fn make_used(&mut self)
        ensures
            !final(self).spec_is_used(),
            final(self).spec_is_cacheable() == old(self).spec_is_cacheable(),
            final(self).spec_put_cacheable_bit() == old(self).spec_put_cacheable_bit(),
            final(self).spec_force_put_uncacheable() == old(self).spec_force_put_uncacheable(),
            final(self).spec_put_bits() == old(self).spec_put_bits(),
            final(self).spec_parent() == old(self).spec_parent(),
            final(self).spec_base() == old(self).spec_base(),
            final(self).spec_offset() == old(self).spec_offset(),
    {
        let f = self.flags;
        self.flags = f & !SLOT_FLAG_USED;
        proof {
            assert((f & !1u32) & 1 == 0 && (f & !1u32) & 2 == f & 2 && (f & !1u32) & 4 == f & 4 && (
            f & !1u32) & 8 == f & 8 && ((f & !1u32) >> 4) & 3 == (f >> 4) & 3) by (bit_vector);
        }
    }

    /// Puts may be cached: recorded as cacheable and not forced off.
    pub fn is_put_cacheable(&self) -> (r: bool)
        ensures
            r == (self.spec_put_cacheable_bit() && !self.spec_force_put_uncacheable()),
    {
        (self.flags & SLOT_FLAG_PUT_CACHEABLE) != 0 && !self.is_put_force_unchacheable()
    }

    /// Force puts through this slot to stay uncached.
    pub fn make_put_uncacheable(&mut self)
        ensures
            final(self).spec_force_put_uncacheable(),
            final(self).spec_is_cacheable() == old(self).spec_is_cacheable(),
            final(self).spec_is_used() == old(self).spec_is_used(),
            final(self).spec_put_cacheable_bit() == old(self).spec_put_cacheable_bit(),
            final(self).spec_put_bits() == old(self).spec_put_bits(),
            final(self).spec_parent() == old(self).spec_parent(),
            final(self).spec_base() == old(self).spec_base(),
            final(self).spec_offset() == old(self).spec_offset(),
    {
        let f = self.flags;
        self.flags = f | SLOT_FLAG_FORCE_PUT_UNCACHEABLE;
        proof {
            assert((f | 8u32) & 8 != 0 && (f | 8u32) & 1 == f & 1 && (f | 8u32) & 2 == f & 2 && (f
                | 8u32) & 4 == f & 4 && ((f | 8u32) >> 4) & 3 == (f >> 4) & 3) by (bit_vector);
        }
    }

    /// Mark loads through this slot uncacheable.
    pub fn make_uncacheable(&mut self)
        ensures
            !final(self).spec_is_cacheable(),
            final(self).spec_is_used() == old(self).spec_is_used(),
            final(self).spec_put_cacheable_bit() == old(self).spec_put_cacheable_bit(),
            final(self).spec_force_put_uncacheable() == old(self).spec_force_put_uncacheable(),
            final(self).spec_put_bits() == old(self).spec_put_bits(),
            final(self).spec_parent() == old(self).spec_parent(),
            final(self).spec_base() == old(self).spec_base(),
            final(self).spec_offset() == old(self).spec_offset(),
    {
        let f = self.flags;
        self.flags = f & !SLOT_FLAG_CACHEABLE;
        proof {
            assert((f & !2u32) & 2 == 0 && (f & !2u32) & 1 == f & 1 && (f & !2u32) & 4 == f & 4 && (
            f & !2u32) & 8 == f & 8 && ((f & !2u32) >> 4) & 3 == (f >> 4) & 3) by (bit_vector);
        }
    }

    /// The slot offset.
    pub fn offset(&self) -> (r: u32)
        ensures
            r == self.spec_offset(),
    {
        self.offset
    }

    /// The base object the property was found on.
    pub fn base(&self) -> (r: &Option<Gc<JsObject>>)
        ensures
            *r == self.spec_base(),
    {
        &self.base
    }

    /// Record a found property without a cacheable offset.
    pub fn set_1(&mut self, value: JsValue, attributes: AttrSafe, obj: Option<Gc<JsObject>>)
        ensures
            final(self).spec_parent().spec_value() == value,
            final(self).spec_parent().spec_attributes() == attributes,
            !final(self).spec_is_used(),
            !final(self).spec_is_cacheable(),
            final(self).spec_base() == obj,
            final(self).spec_offset() == u32::MAX,
            final(self).spec_put_cacheable_bit() == old(self).spec_put_cacheable_bit(),
            final(self).spec_force_put_uncacheable() == old(self).spec_force_put_uncacheable(),
            final(self).spec_put_bits() == old(self).spec_put_bits(),
    {
        self.set(value, attributes);
        self.make_used();
        self.make_uncacheable();
        self.base = obj;
        self.offset = u32::MAX;
    }

    /// Record a found property at a cacheable slot offset.
    pub fn set_woffset(
        &mut self,
        value: JsValue,
        attributes: AttrSafe,
        obj: Option<Gc<JsObject>>,
        offset: u32,
    )
        ensures
            final(self).spec_parent().spec_value() == value,
            final(self).spec_parent().spec_attributes() == attributes,
            !final(self).spec_is_used(),
            final(self).spec_is_cacheable() == old(self).spec_is_cacheable(),
            final(self).spec_base() == obj,
            final(self).spec_offset() == offset,
            final(self).spec_put_cacheable_bit() == old(self).spec_put_cacheable_bit(),
            final(self).spec_force_put_uncacheable() == old(self).spec_force_put_uncacheable(),
            final(self).spec_put_bits() == old(self).spec_put_bits(),
    {
        self.set(value, attributes);
        self.make_used();
        self.base = obj;
        self.offset = offset;
    }

    /// Record a found property copied from a stored slot.
    pub fn set_from_slot(&mut self, slot: &StoredSlot, obj: Option<Gc<JsObject>>)
        ensures
            final(self).spec_parent().spec_value() == slot.spec_value(),
            final(self).spec_parent().spec_attributes() == slot.spec_attributes(),
            !final(self).spec_is_used(),
            !final(self).spec_is_cacheable(),
            final(self).spec_base() == obj,
            final(self).spec_offset() == u32::MAX,
    {
        self.set_1(slot.value(), slot.attributes(), obj);
    }

    /// Loads may be cached: the slot is cacheable and holds a data
    /// property.
    pub fn is_load_cacheable(&self) -> (r: bool)
        ensures
            r == (self.spec_is_cacheable()
                && self.spec_parent().spec_attributes().spec_is_data()),
    {
        self.is_cacheable() && self.parent.attributes().is_data()
    }

    /// Stores may be cached: the slot is cacheable and holds a writable
    /// data property.
    pub fn is_store_cacheable(&self) -> (r: bool)
        ensures
            r == (self.spec_is_cacheable()
                && self.spec_parent().spec_attributes().spec_is_simple_data()),
    {
        self.is_cacheable() && self.parent.attributes().is_simple_data()
    }

    /// A real slot offset was recorded.
    pub fn has_offset(&self) -> (r: bool)
        ensures
            r == (self.spec_offset() != u32::MAX),
    {
        self.offset != u32::MAX
    }

    /// The lookup missed.
    pub fn is_not_found(&self) -> (r: bool)
        ensures
            r == self.spec_parent().spec_attributes().spec_is_not_found(),
    {
        self.parent.attributes().is_not_found()
    }

    /// A fresh slot: undefined value, sentinel attributes, cacheable.
    pub fn new() -> (r: Self)
        ensures
            r.spec_parent().spec_value().raw == JS_VALUE_UNDEFINED,
            r.spec_parent().spec_attributes().spec_is_not_found(),
            r.spec_flags() == SLOT_FLAG_INIT,
            r.spec_base() is None,
            r.spec_offset() == u32::MAX,
            r.spec_is_cacheable(),
            !r.spec_is_used(),
            !r.spec_put_cacheable_bit(),
            !r.spec_force_put_uncacheable(),
            r.spec_put_bits() == 0,
    {
        proof {
            assert(2u32 & 2 != 0 && 2u32 & 1 == 0 && 2u32 & 4 == 0 && 2u32 & 8 == 0 && (2u32 >> 4)
                & 3 == 0) by (bit_vector);
        }
        Slot {
            parent: StoredSlot::new_raw(JsValue::undefined(), AttrSafe::not_found()),
            offset: u32::MAX,
            flags: SLOT_FLAG_INIT,
            base: None,
        }
    }

    /// Overwrite the stored value and attributes.
    pub fn set(&mut self, value: JsValue, attributes: AttrSafe)
        ensures
            final(self).spec_parent().spec_value() == value,
            final(self).spec_parent().spec_attributes() == attributes,
            final(self).spec_flags() == old(self).spec_flags(),
            final(self).spec_base() == old(self).spec_base(),
            final(self).spec_offset() == old(self).spec_offset(),
            final(self).spec_is_cacheable() == old(self).spec_is_cacheable(),
            final(self).spec_is_used() == old(self).spec_is_used(),
            final(self).spec_put_cacheable_bit() == old(self).spec_put_cacheable_bit(),
            final(self).spec_force_put_uncacheable() == old(self).spec_force_put_uncacheable(),
            final(self).spec_put_bits() == old(self).spec_put_bits(),
    {
        self.parent.set(value, attributes);
    }
}

} // verus!
