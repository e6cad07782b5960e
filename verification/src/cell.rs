//! The heap cell protocol: the fixed header every managed payload sits
//! behind, garbage-collector colors, the managed reference, and the trace
//! protocol.
//!
//! Managed references are arena indices rather than machine pointers; the
//! header-to-payload addressing and the precise-vs-block classifier are
//! stated over plain cell addresses.

use vstd::prelude::*;

use core::marker::PhantomData;

verus! {

/// Reclaimable cell.
pub const GC_DEAD: u8 = 0x4;
/// Unmarked: unreachable until proven otherwise.
pub const GC_WHITE: u8 = 0x0;
/// Marked, children scanned.
pub const GC_BLACK: u8 = 0x1;
/// Discovered, children not yet scanned.
pub const GC_GRAY: u8 = 0x2;
/// Alias of the fully marked color.
pub const GC_MARKED: u8 = GC_BLACK;
/// Alias of the unmarked color.
pub const GC_UNMARKED: u8 = GC_WHITE;

/// Size in bytes of the header that precedes every managed payload.
pub const HEADER_SIZE: usize = 8;

/// Bytes covered by one block of the block allocator.
pub const BLOCK_SIZE: usize = 16384;

/// Cell alignment; a precise (individually mapped) cell starts at an odd
/// multiple of half this alignment, a block cell at an even one.
pub const CELL_ALIGNMENT: usize = 16;

/// A managed reference: a one-word handle to a cell in the arena-backed
/// heap, tagged with the payload type it promises to point at. Two managed
/// references are equal iff they carry the same handle.
pub struct Gc<T> {
    pub raw: u32,
    pub marker: PhantomData<T>,
}

impl<T> Gc<T> {
    /// Build a reference from its raw handle.
    pub fn from_handle(raw: u32) -> (r: Self)
        ensures
            r.raw == raw,
    {
        Gc { raw, marker: PhantomData }
    }

    /// Whether two managed references address the same cell, whatever their
    /// payload types.
    pub fn ptr_eq<U>(this: Gc<T>, other: Gc<U>) -> (r: bool)
        ensures
            r == (this.raw == other.raw),
    {
        this.raw == other.raw
    }
}

impl<T> Clone for Gc<T> {
    fn clone(&self) -> (r: Self)
        ensures
            r.raw == self.raw,
    {
        Gc { raw: self.raw, marker: PhantomData }
    }
}

impl<T> Copy for Gc<T> {

}

/// Size in bytes of the record that precedes a precise (individually
/// mapped) cell.
pub const PRECISE_ALLOCATION_HEADER_SIZE: usize = 16;

/// The fixed prefix of every managed payload: one word holding the type
/// discriminator with the garbage collector's color tag packed into its low
/// two bits, which word alignment leaves free. The discriminator word is
/// nonzero iff the cell is live; writing zero ("zapping") marks it freed.
#[derive(Clone, Copy, PartialEq, Eq, Structural, Debug)]
pub struct Header {
    ty: u64,
}

impl Header {
    /// The type discriminator.
    pub closed spec fn spec_vtable(&self) -> u64 {
        self.ty & !3u64
    }

    /// The color tag in the low two bits.
    pub closed spec fn spec_tag(&self) -> u8 {
        (self.ty & 3) as u8
    }

    /// A fresh header for a discriminator, colored white.
    pub fn new(vtable: u64) -> (r: Self)
        requires
            vtable & 3u64 == 0,
        ensures
            r.spec_vtable() == vtable,
            r.spec_tag() == GC_WHITE,
    {
        let mut this = Header { ty: 0 };
        proof {
            assert(0u64 & 3u64 == 0 && (0u64 & 3) as u8 == 0) by (bit_vector);
        }
        this.set_vtable(vtable);
        this
    }

    /// Whether the cell at `addr` was individually mapped: precise cells
    /// start at an odd multiple of half the cell alignment, block cells at
    /// an even one. The classifier is a property of the address alone.
    pub fn is_precise_allocation(&self, addr: usize) -> (r: bool)
        ensures
            r == (addr % CELL_ALIGNMENT >= CELL_ALIGNMENT / 2),
    {
        addr % CELL_ALIGNMENT >= CELL_ALIGNMENT / 2
    }

    /// The precise-allocation record of the cell at `addr`, which sits
    /// immediately before the header.
    pub fn precise_allocation(&self, addr: usize) -> (r: usize)
        requires
            addr >= PRECISE_ALLOCATION_HEADER_SIZE,
        ensures
            r == addr - PRECISE_ALLOCATION_HEADER_SIZE,
    {
        addr - PRECISE_ALLOCATION_HEADER_SIZE
    }

    /// The block the cell at `addr` was carved from.
    pub fn block(&self, addr: usize) -> (r: usize)
        ensures
            r == addr - addr % BLOCK_SIZE,
    {
        addr - addr % BLOCK_SIZE
    }

    /// Where the payload of the header at `addr` begins.
    pub fn data_start(&self, addr: usize) -> (r: usize)
        requires
            addr + HEADER_SIZE <= usize::MAX,
        ensures
            r == addr + HEADER_SIZE,
    {
        addr + HEADER_SIZE
    }

    /// The type discriminator.
    pub fn vtable(&self) -> (r: u64)
        ensures
            r == self.spec_vtable(),
    {
        self.ty & !3u64
    }

    /// The color tag.
    pub fn tag(&self) -> (r: u8)
        ensures
            r == self.spec_tag(),
    {
        proof {
            let t = self.ty;
            assert(t & 3 <= 3) by (bit_vector);
        }
        (self.ty & 3) as u8
    }

    /// Replace the discriminator, keeping the color tag.
    pub fn set_vtable(&mut self, vtable: u64)
        requires
            vtable & 3u64 == 0,
        ensures
            final(self).spec_vtable() == vtable,
            final(self).spec_tag() == old(self).spec_tag(),
    {
        let t = self.ty;
        self.ty = vtable | (t & 3);
        proof {
            assert((vtable | (t & 3)) & !3u64 == vtable && (vtable | (t & 3)) & 3 == t & 3) by (
            bit_vector)
                requires
                    vtable & 3u64 == 0,
            ;
        }
    }

    /// Replace the color tag, keeping the discriminator.
    pub fn set_tag(&mut self, tag: u8)
        requires
            tag < 4,
        ensures
            final(self).spec_vtable() == old(self).spec_vtable(),
            final(self).spec_tag() == tag,
    {
        let t = self.ty;
        self.ty = (t & !3u64) | (tag as u64);
        proof {
            let g = tag as u64;
            assert(((t & !3u64) | g) & !3u64 == t & !3u64 && ((t & !3u64) | g) & 3 == g) by (
            bit_vector)
                requires
                    g < 4,
            ;
        }
    }

    /// Mark the cell freed by zeroing the discriminator. The sweeper must
    /// not enqueue a zapped cell.
    pub fn zap(&mut self, _reason: u32)
        ensures
            final(self).spec_vtable() == 0,
            final(self).spec_tag() == old(self).spec_tag(),
            final(self).spec_is_zapped(),
    {
        proof {
            assert(0u64 & 3u64 == 0) by (bit_vector);
        }
        self.set_vtable(0);
    }

    /// The cell has been zapped.
    pub closed spec fn spec_is_zapped(&self) -> bool {
        self.spec_vtable() == 0
    }

    /// Whether the cell has been zapped.
    pub fn is_zapped(&self) -> (r: bool)
        ensures
            r == self.spec_is_zapped(),
    {
        self.vtable() == 0
    }
}

/// A managed reference as the tracer sees it: which arena the referent
/// lives in, and where.
#[derive(Clone, Copy, PartialEq, Eq, Structural, Debug)]
pub enum CellRef {
    Structure(u32),
    Object(u32),
    Deleted(u32),
}

/// What a garbage collector hands to [`Trace::trace`]: it is told about
/// every managed reference the traced value owns.
pub trait Tracer {
    /// The references reported so far.
    spec fn visited(&self) -> Seq<CellRef>;

    /// Report one owned reference.
    fn trace(&mut self, header: CellRef)
        ensures
            final(self).visited() == old(self).visited().push(header),
    ;
}

/// A type whose values can be traced: `trace` reports each managed
/// reference the value directly owns, exactly once, in order.
pub trait Trace {
    /// The managed references this value directly owns.
    spec fn owned_refs(&self) -> Seq<CellRef>;

    /// Report every owned reference to the tracer.
    fn trace<V: Tracer>(&self, tracer: &mut V)
        ensures
            final(tracer).visited() == old(tracer).visited() + self.owned_refs(),
    ;
}

/// A payload that can live in the managed heap: traceable, sized on
/// request, with a per-type discriminator for downcasts, and optional
/// accessors for payloads that represent JS objects.
pub trait Cell: Trace {
    /// The discriminator registered for this type; any injective scheme
    /// serves.
    spec fn ty_id_spec() -> u64;

    /// The discriminator registered for this type.
    fn ty_of() -> (r: u64)
        ensures
            r == Self::ty_id_spec(),
    ;

    /// Byte size of this payload, for allocation.
    fn compute_size(&self) -> usize;

    /// Name of this payload type.
    fn get_typename(&self) -> &'static str;

    /// The JS class descriptor, for payloads that represent JS objects.
    fn get_class_value(&self) -> (r: Option<u32>);

    /// The current structure, for payloads that represent JS objects.
    fn get_structure(&self) -> (r: Option<Gc<crate::structure::Structure>>);
}

/// The discriminator registered for a cell type.
pub fn object_ty_of_type<T: Cell>() -> (r: u64)
    ensures
        r == T::ty_id_spec(),
{
    T::ty_of()
}

/// A tracer that collects the reported references on a mark stack, as the
/// collector's discovery phase does.
pub struct MarkStack {
    refs: Vec<CellRef>,
}

impl MarkStack {
    /// A fresh, empty mark stack.
    pub fn new() -> (r: Self)
        ensures
            r.visited() == Seq::<CellRef>::empty(),
    {
        MarkStack { refs: Vec::new() }
    }

    /// The references reported so far.
    pub fn refs(&self) -> (r: &Vec<CellRef>)
        ensures
            r@ == self.visited(),
    {
        &self.refs
    }
}

impl Tracer for MarkStack {
    closed spec fn visited(&self) -> Seq<CellRef> {
        self.refs@
    }

    fn trace(&mut self, header: CellRef) {
        self.refs.push(header);
    }
}

/// Primitive payloads own no managed references and trace as no-ops.
impl Trace for () {
    open spec fn owned_refs(&self) -> Seq<CellRef> {
        Seq::empty()
    }

    fn trace<V: Tracer>(&self, tracer: &mut V) {
        proof {
            assert(tracer.visited() + self.owned_refs() =~= tracer.visited());
        }
    }
}

impl Cell for () {
    closed spec fn ty_id_spec() -> u64 {
        0
    }

    fn ty_of() -> u64 {
        0
    }

    fn compute_size(&self) -> usize {
        core::mem::size_of::<Self>()
    }

    fn get_typename(&self) -> &'static str {
        "unit"
    }

    fn get_class_value(&self) -> Option<u32> {
        None
    }

    fn get_structure(&self) -> Option<Gc<crate::structure::Structure>> {
        None
    }
}

impl Trace for bool {
    open spec fn owned_refs(&self) -> Seq<CellRef> {
        Seq::empty()
    }

    fn trace<V: Tracer>(&self, tracer: &mut V) {
        proof {
            assert(tracer.visited() + self.owned_refs() =~= tracer.visited());
        }
    }
}

impl Cell for bool {
    closed spec fn ty_id_spec() -> u64 {
        1
    }

    fn ty_of() -> u64 {
        1
    }

    fn compute_size(&self) -> usize {
        core::mem::size_of::<Self>()
    }

    fn get_typename(&self) -> &'static str {
        "bool"
    }

    fn get_class_value(&self) -> Option<u32> {
        None
    }

    fn get_structure(&self) -> Option<Gc<crate::structure::Structure>> {
        None
    }
}

impl Trace for u8 {
    open spec fn owned_refs(&self) -> Seq<CellRef> {
        Seq::empty()
    }

    fn trace<V: Tracer>(&self, tracer: &mut V) {
        proof {
            assert(tracer.visited() + self.owned_refs() =~= tracer.visited());
        }
    }
}

impl Cell for u8 {
    closed spec fn ty_id_spec() -> u64 {
        2
    }

    fn ty_of() -> u64 {
        2
    }

    fn compute_size(&self) -> usize {
        core::mem::size_of::<Self>()
    }

    fn get_typename(&self) -> &'static str {
        "u8"
    }

    fn get_class_value(&self) -> Option<u32> {
        None
    }

    fn get_structure(&self) -> Option<Gc<crate::structure::Structure>> {
        None
    }
}

impl Trace for u16 {
    open spec fn owned_refs(&self) -> Seq<CellRef> {
        Seq::empty()
    }

    fn trace<V: Tracer>(&self, tracer: &mut V) {
        proof {
            assert(tracer.visited() + self.owned_refs() =~= tracer.visited());
        }
    }
}

impl Cell for u16 {
    closed spec fn ty_id_spec() -> u64 {
        3
    }

    fn ty_of() -> u64 {
        3
    }

    fn compute_size(&self) -> usize {
        core::mem::size_of::<Self>()
    }

    fn get_typename(&self) -> &'static str {
        "u16"
    }

    fn get_class_value(&self) -> Option<u32> {
        None
    }

    fn get_structure(&self) -> Option<Gc<crate::structure::Structure>> {
        None
    }
}

impl Trace for u32 {
    open spec fn owned_refs(&self) -> Seq<CellRef> {
        Seq::empty()
    }

    fn trace<V: Tracer>(&self, tracer: &mut V) {
        proof {
            assert(tracer.visited() + self.owned_refs() =~= tracer.visited());
        }
    }
}

impl Cell for u32 {
    closed spec fn ty_id_spec() -> u64 {
        4
    }

    fn ty_of() -> u64 {
        4
    }

    fn compute_size(&self) -> usize {
        core::mem::size_of::<Self>()
    }

    fn get_typename(&self) -> &'static str {
        "u32"
    }

    fn get_class_value(&self) -> Option<u32> {
        None
    }

    fn get_structure(&self) -> Option<Gc<crate::structure::Structure>> {
        None
    }
}

impl Trace for u64 {
    open spec fn owned_refs(&self) -> Seq<CellRef> {
        Seq::empty()
    }

    fn trace<V: Tracer>(&self, tracer: &mut V) {
        proof {
            assert(tracer.visited() + self.owned_refs() =~= tracer.visited());
        }
    }
}

impl Cell for u64 {
    closed spec fn ty_id_spec() -> u64 {
        5
    }

    fn ty_of() -> u64 {
        5
    }

    fn compute_size(&self) -> usize {
        core::mem::size_of::<Self>()
    }

    fn get_typename(&self) -> &'static str {
        "u64"
    }

    fn get_class_value(&self) -> Option<u32> {
        None
    }

    fn get_structure(&self) -> Option<Gc<crate::structure::Structure>> {
        None
    }
}

impl Trace for u128 {
    open spec fn owned_refs(&self) -> Seq<CellRef> {
        Seq::empty()
    }

    fn trace<V: Tracer>(&self, tracer: &mut V) {
        proof {
            assert(tracer.visited() + self.owned_refs() =~= tracer.visited());
        }
    }
}

impl Cell for u128 {
    closed spec fn ty_id_spec() -> u64 {
        6
    }

    fn ty_of() -> u64 {
        6
    }

    fn compute_size(&self) -> usize {
        core::mem::size_of::<Self>()
    }

    fn get_typename(&self) -> &'static str {
        "u128"
    }

    fn get_class_value(&self) -> Option<u32> {
        None
    }

    fn get_structure(&self) -> Option<Gc<crate::structure::Structure>> {
        None
    }
}

impl Trace for i8 {
    open spec fn owned_refs(&self) -> Seq<CellRef> {
        Seq::empty()
    }

    fn trace<V: Tracer>(&self, tracer: &mut V) {
        proof {
            assert(tracer.visited() + self.owned_refs() =~= tracer.visited());
        }
    }
}

impl Cell for i8 {
    closed spec fn ty_id_spec() -> u64 {
        7
    }

    fn ty_of() -> u64 {
        7
    }

    fn compute_size(&self) -> usize {
        core::mem::size_of::<Self>()
    }

    fn get_typename(&self) -> &'static str {
        "i8"
    }

    fn get_class_value(&self) -> Option<u32> {
        None
    }

    fn get_structure(&self) -> Option<Gc<crate::structure::Structure>> {
        None
    }
}

impl Trace for i16 {
    open spec fn owned_refs(&self) -> Seq<CellRef> {
        Seq::empty()
    }

    fn trace<V: Tracer>(&self, tracer: &mut V) {
        proof {
            assert(tracer.visited() + self.owned_refs() =~= tracer.visited());
        }
    }
}

impl Cell for i16 {
    closed spec fn ty_id_spec() -> u64 {
        8
    }

    fn ty_of() -> u64 {
        8
    }

    fn compute_size(&self) -> usize {
        core::mem::size_of::<Self>()
    }

    fn get_typename(&self) -> &'static str {
        "i16"
    }

    fn get_class_value(&self) -> Option<u32> {
        None
    }

    fn get_structure(&self) -> Option<Gc<crate::structure::Structure>> {
        None
    }
}

impl Trace for i32 {
    open spec fn owned_refs(&self) -> Seq<CellRef> {
        Seq::empty()
    }

    fn trace<V: Tracer>(&self, tracer: &mut V) {
        proof {
            assert(tracer.visited() + self.owned_refs() =~= tracer.visited());
        }
    }
}

impl Cell for i32 {
    closed spec fn ty_id_spec() -> u64 {
        9
    }

    fn ty_of() -> u64 {
        9
    }

    fn compute_size(&self) -> usize {
        core::mem::size_of::<Self>()
    }

    fn get_typename(&self) -> &'static str {
        "i32"
    }

    fn get_class_value(&self) -> Option<u32> {
        None
    }

    fn get_structure(&self) -> Option<Gc<crate::structure::Structure>> {
        None
    }
}

impl Trace for i64 {
    open spec fn owned_refs(&self) -> Seq<CellRef> {
        Seq::empty()
    }

    fn trace<V: Tracer>(&self, tracer: &mut V) {
        proof {
            assert(tracer.visited() + self.owned_refs() =~= tracer.visited());
        }
    }
}

impl Cell for i64 {
    closed spec fn ty_id_spec() -> u64 {
        10
    }

    fn ty_of() -> u64 {
        10
    }

    fn compute_size(&self) -> usize {
        core::mem::size_of::<Self>()
    }

    fn get_typename(&self) -> &'static str {
        "i64"
    }

    fn get_class_value(&self) -> Option<u32> {
        None
    }

    fn get_structure(&self) -> Option<Gc<crate::structure::Structure>> {
        None
    }
}

impl Trace for i128 {
    open spec fn owned_refs(&self) -> Seq<CellRef> {
        Seq::empty()
    }

    fn trace<V: Tracer>(&self, tracer: &mut V) {
        proof {
            assert(tracer.visited() + self.owned_refs() =~= tracer.visited());
        }
    }
}

impl Cell for i128 {
    closed spec fn ty_id_spec() -> u64 {
        11
    }

    fn ty_of() -> u64 {
        11
    }

    fn compute_size(&self) -> usize {
        core::mem::size_of::<Self>()
    }

    fn get_typename(&self) -> &'static str {
        "i128"
    }

    fn get_class_value(&self) -> Option<u32> {
        None
    }

    fn get_structure(&self) -> Option<Gc<crate::structure::Structure>> {
        None
    }
}

/// An optional value owns what its content owns.
impl<T: Trace> Trace for Option<T> {
    open spec fn owned_refs(&self) -> Seq<CellRef> {
        match self {
            Option::Some(x) => x.owned_refs(),
            Option::None => Seq::empty(),
        }
    }

    fn trace<V: Tracer>(&self, tracer: &mut V) {
        match self {
            Option::Some(x) => {
                x.trace(tracer);
            },
            Option::None => {
                proof {
                    assert(tracer.visited() + self.owned_refs() =~= tracer.visited());
                }
            },
        }
    }
}

} // verus!

