//! Hidden classes ("structures"): the shape descriptor a JS object carries,
//! the transition tree between shapes, and the arena that holds them.
//!
//! A structure denotes a property map: either its materialised table, or the
//! map of its parent extended by the single `added` delta. The arena-level
//! well-formedness invariant keeps, for every structure, the live slot
//! offsets and the deleted-slot stack a partition of `[0, slots_size)`.

use vstd::prelude::*;
use vstd::seq_lib::*;

use crate::attributes::AttrSafe;
use crate::cell::{Cell, CellRef, Gc, Trace, Tracer};
use crate::deleted::{holder_seq, holder_wf, nodes_wf, DeletedEntry, DeletedEntryHolder};
use crate::symbol::Symbol;
use crate::table::PropTable;
use crate::transitions::{TransitionKey, TransitionsTable};

verus! {

/// Inline-cache key of a structure; 0 until assigned by the host.
pub type StructureID = u32;

/// Handle target for the object layer's prototype objects; the objects
/// themselves live outside this core.
pub struct JsObject {
    _private: (),
}

/// A property's location and attributes inside an object: the slot offset
/// the object stores the value at, and the attribute word. The
/// distinguished value `{ offset: u32::MAX, attrs: not_found }` means
/// "no such property".
#[derive(Clone, Copy, PartialEq, Eq, Structural, Debug)]
pub struct MapEntry {
    pub offset: u32,
    pub attrs: AttrSafe,
}

impl MapEntry {
    /// The "no such property" sentinel entry.
    pub fn not_found() -> (r: Self)
        ensures
            r.offset == u32::MAX,
            r.attrs.raw == crate::attributes::ATTR_EMPTY,
            r.attrs.spec_is_not_found(),
    {
        MapEntry { offset: u32::MAX, attrs: AttrSafe::not_found() }
    }

    /// True iff this is the "no such property" sentinel.
    pub fn is_not_found(&self) -> (r: bool)
        ensures
            r == self.attrs.spec_is_not_found(),
    {
        self.attrs.is_not_found()
    }
}

/// The shape of a JS object: which properties it has, at which slot offsets,
/// with which attributes, plus the transition bookkeeping.
pub struct Structure {
    id: StructureID,
    transitions: TransitionsTable,
    table: Option<PropTable>,
    deleted: DeletedEntryHolder,
    added: (Symbol, MapEntry),
    previous: Option<Gc<Structure>>,
    prototype: Option<Gc<JsObject>>,
    calculated_size: u32,
    transit_count: u32,
}

impl Structure {
    /// The inline-cache key.
    pub closed spec fn spec_id(&self) -> StructureID {
        self.id
    }

    /// The single delta that distinguishes this structure from its parent.
    pub closed spec fn spec_added(&self) -> (Symbol, MapEntry) {
        self.added
    }

    /// The parent in the transition tree, if still linked.
    pub closed spec fn spec_previous(&self) -> Option<Gc<Structure>> {
        self.previous
    }

    /// The owning objects' prototype.
    pub closed spec fn spec_prototype(&self) -> Option<Gc<JsObject>> {
        self.prototype
    }

    /// The deleted-slot stack head.
    pub closed spec fn spec_deleted(&self) -> DeletedEntryHolder {
        self.deleted
    }

    /// Number of transitions taken from this structure.
    pub closed spec fn spec_transit_count(&self) -> u32 {
        self.transit_count
    }

    /// The cached successors.
    pub closed spec fn spec_transitions(&self) -> Map<TransitionKey, u32> {
        self.transitions@
    }

    /// Whether the complete property table is materialised.
    pub closed spec fn spec_has_table(&self) -> bool {
        self.table is Some
    }

    /// The materialised table's map.
    pub closed spec fn spec_table_map(&self) -> Map<Symbol, MapEntry> {
        self.table.unwrap()@
    }

    /// Transitions disabled means unique.
    pub closed spec fn spec_is_unique(&self) -> bool {
        !self.transitions.spec_is_enabled()
    }

    /// The object has integer-keyed elements.
    pub closed spec fn spec_is_indexed(&self) -> bool {
        self.transitions.spec_is_indexed()
    }

    /// This unique structure has already been forked once.
    pub closed spec fn spec_unique_transition(&self) -> bool {
        self.transitions.spec_unique_transition()
    }

    /// Slot count backing this structure: table length plus deleted-stack
    /// size when the table is present, else the cached count.
    pub closed spec fn spec_slots_size(&self) -> int {
        match self.table {
            Option::Some(ref t) => t.spec_len() + self.deleted.size,
            Option::None => self.calculated_size as int,
        }
    }

    /// The inline-cache key.
    pub fn id(&self) -> (r: StructureID)
        ensures
            r == self.spec_id(),
    {
        self.id
    }

    /// True iff this structure carries a delta over its parent.
    pub fn is_adding_map(&self) -> (r: bool)
        ensures
            r == !(self.spec_added().0 is Dummy),
    {
        !self.added.0.is_dummy()
    }

    /// True iff the complete property table is materialised.
    pub fn has_table(&self) -> (r: bool)
        ensures
            r == self.spec_has_table(),
    {
        self.table.is_some()
    }

    /// The materialised property table, if any.
    pub fn table(&self) -> (r: &Option<PropTable>)
        ensures
            (*r is Some) == self.spec_has_table(),
            *r is Some ==> (*r).unwrap()@ == self.spec_table_map(),
    {
        &self.table
    }

    /// True iff the object has integer-keyed elements.
    pub fn is_indexed(&self) -> (r: bool)
        ensures
            r == self.spec_is_indexed(),
    {
        self.transitions.is_indexed()
    }

    /// True iff transitions are disabled and the structure is owned by a
    /// single object.
    pub fn is_unique(&self) -> (r: bool)
        ensures
            r == self.spec_is_unique(),
    {
        !self.transitions.is_enabled()
    }

    /// Whether the structure's id may key inline caches.
    pub fn is_shaped(&self) -> (r: bool)
        ensures
            r == !self.spec_is_unique(),
    {
        !self.is_unique() || self.transitions.is_enabled()
    }

    /// The owning objects' prototype.
    pub fn prototype(&self) -> (r: Option<Gc<JsObject>>)
        ensures
            r == self.spec_prototype(),
    {
        self.prototype
    }

    /// Mark a unique structure so that the next transition forks instead of
    /// editing in place.
    pub fn flatten(&mut self)
        ensures
            final(self).spec_unique_transition() == (old(self).spec_is_unique() || old(
                self,
            ).spec_unique_transition()),
            final(self).spec_is_unique() == old(self).spec_is_unique(),
            final(self).spec_is_indexed() == old(self).spec_is_indexed(),
            final(self).spec_transitions() == old(self).spec_transitions(),
            final(self).spec_added() == old(self).spec_added(),
            final(self).spec_previous() == old(self).spec_previous(),
            final(self).spec_prototype() == old(self).spec_prototype(),
            final(self).spec_deleted() == old(self).spec_deleted(),
            final(self).spec_slots_size() == old(self).spec_slots_size(),
            final(self).spec_has_table() == old(self).spec_has_table(),
            final(self).spec_has_table() ==> final(self).spec_table_map() == old(
                self,
            ).spec_table_map(),
            final(self).spec_id() == old(self).spec_id(),
            final(self).spec_transit_count() == old(self).spec_transit_count(),
            old(self).spec_unique_transition() ==> *final(self) == *old(self),
    {
        if self.is_unique() {
            self.transitions.enable_unique_transition();
        }
    }

    /// Slot count backing this structure.
    pub fn get_slots_size(&self) -> (r: usize)
        requires
            self.spec_slots_size() <= u32::MAX,
        ensures
            r == self.spec_slots_size(),
    {
        match &self.table {
            Option::Some(t) => t.len() + self.deleted.size as usize,
            Option::None => self.calculated_size as usize,
        }
    }
}

/// The property map a structure denotes: its table when materialised, else
/// its parent's map extended by the `added` delta.
pub closed spec fn props_at(ss: Seq<Structure>, i: int) -> Map<Symbol, MapEntry>
    decreases i,
{
    if 0 <= i < ss.len() {
        let st = ss[i];
        match st.table {
            Option::Some(t) => t@,
            Option::None => match st.previous {
                Option::Some(p) => if (p.raw as int) < i {
                    let base = props_at(ss, p.raw as int);
                    if st.added.0 is Dummy {
                        base
                    } else {
                        base.insert(st.added.0, st.added.1)
                    }
                } else {
                    Map::empty()
                },
                Option::None => Map::empty(),
            },
        }
    } else {
        Map::empty()
    }
}

/// A structure's denoted map has finitely many names.
proof fn lemma_props_at_finite(ss: Seq<Structure>, i: int)
    ensures
        props_at(ss, i).dom().finite(),
    decreases i,
{
    if 0 <= i < ss.len() {
        let st = ss[i];
        match st.table {
            Option::Some(t) => {
                t.lemma_view_finite();
            },
            Option::None => {
                match st.previous {
                    Option::Some(p) => {
                        if (p.raw as int) < i {
                            lemma_props_at_finite(ss, p.raw as int);
                        }
                    },
                    Option::None => {},
                }
            },
        }
    }
}

/// Slot offset `o` is accounted for: some live property sits at it or it is
/// on the deleted stack.
pub open spec fn covered(props: Map<Symbol, MapEntry>, dseq: Seq<u32>, o: int) -> bool {
    (exists|k: Symbol| #[trigger] props.contains_key(k) && props[k].offset == o) || dseq.contains(
        o as u32,
    )
}

/// The live offsets and the deleted stack partition `[0, slots)`: live
/// offsets are injective and in range, deleted offsets are distinct and in
/// range, the two are disjoint, and together they cover the range.
pub open spec fn partition_ok(props: Map<Symbol, MapEntry>, dseq: Seq<u32>, slots: int) -> bool {
    &&& forall|k: Symbol| #[trigger]
        props.contains_key(k) ==> props[k].offset < slots && !props[k].attrs.spec_is_not_found()
    &&& forall|k1: Symbol, k2: Symbol|
        #![trigger props.contains_key(k1), props.contains_key(k2)]
        props.contains_key(k1) && props.contains_key(k2) && k1 != k2 ==> props[k1].offset
            != props[k2].offset
    &&& dseq.no_duplicates()
    &&& forall|j: int| 0 <= j < dseq.len() ==> (#[trigger] dseq[j]) < slots
    &&& forall|k: Symbol, j: int|
        #![trigger props.contains_key(k), dseq[j]]
        props.contains_key(k) && 0 <= j < dseq.len() ==> props[k].offset != dseq[j]
    &&& forall|o: int| 0 <= o < slots ==> covered(props, dseq, o)
}

/// Conditions the cached successor under key `k` of structure `i` meets:
/// its delta is exactly `(k.name, entry)` with `entry.attrs` matching the
/// key, the delta's offset is fresh for `i`'s map, and its denoted map is
/// `i`'s plus the delta.
pub closed spec fn trans_cache_ok(ss: Seq<Structure>, i: int, k: TransitionKey) -> bool {
    let c = ss[i].transitions@[k] as int;
    &&& i < c < ss.len()
    &&& !ss[c].spec_is_unique()
    &&& ss[c].added.0 == k.name
    &&& !(ss[c].added.0 is Dummy)
    &&& ss[c].added.1.attrs.raw == k.attrs
    &&& props_at(ss, c) == props_at(ss, i).insert(k.name, ss[c].added.1)
    &&& !(exists|k2: Symbol| #[trigger]
        props_at(ss, i).contains_key(k2) && props_at(ss, i)[k2].offset == ss[c].added.1.offset)
}

/// Well-formedness of the structure at index `i` of the arena.
pub closed spec fn struct_wf(ss: Seq<Structure>, nodes: Seq<DeletedEntry>, i: int) -> bool {
    let st = ss[i];
    let props = props_at(ss, i);
    let slots = st.spec_slots_size();
    let dseq = holder_seq(nodes, st.deleted);
    &&& st.transitions.wf()
    &&& match st.table {
        Option::Some(ref t) => t.wf(),
        Option::None => true,
    }
    &&& match st.previous {
        Option::Some(p) => p.raw < i && (st.table is None ==> !ss[p.raw as int].spec_is_unique()),
        Option::None => true,
    }
    &&& (st.table is None && st.previous is None ==> st.added.0 is Dummy && st.calculated_size
        == 0)
    &&& st.spec_is_unique() ==> st.added.0 is Dummy
    &&& st.spec_is_unique() ==> st.transitions@ == Map::<TransitionKey, u32>::empty()
    &&& holder_wf(nodes, st.deleted)
    &&& slots <= u32::MAX
    &&& partition_ok(props, dseq, slots)
    &&& forall|k: TransitionKey| #[trigger]
        st.transitions@.contains_key(k) ==> trans_cache_ok(ss, i, k)
    &&& st.transit_count <= 32
}

/// The arena every structure and deleted-stack node lives in. The heap's
/// `space.alloc` is played by pushing into these arenas; references are
/// arena indices.
pub struct Space {
    structures: Vec<Structure>,
    nodes: Vec<DeletedEntry>,
}

impl Space {
    /// The structure arena.
    pub closed spec fn structs(&self) -> Seq<Structure> {
        self.structures@
    }

    /// The deleted-node arena.
    pub closed spec fn nodes_seq(&self) -> Seq<DeletedEntry> {
        self.nodes@
    }

    /// A handle addresses a structure of this arena.
    pub closed spec fn valid(&self, r: Gc<Structure>) -> bool {
        (r.raw as int) < self.structures@.len()
    }

    /// The structure a handle addresses.
    pub closed spec fn at(&self, r: Gc<Structure>) -> Structure {
        self.structures@[r.raw as int]
    }

    /// The property map the structure a handle addresses denotes.
    pub closed spec fn props(&self, r: Gc<Structure>) -> Map<Symbol, MapEntry> {
        props_at(self.structures@, r.raw as int)
    }

    /// Arena-wide well-formedness.
    pub closed spec fn wf(&self) -> bool {
        &&& self.structures@.len() <= u32::MAX
        &&& self.nodes@.len() <= u32::MAX
        &&& nodes_wf(self.nodes@)
        &&& forall|i: int|
            0 <= i < self.structures@.len() ==> #[trigger] struct_wf(
                self.structures@,
                self.nodes@,
                i,
            )
    }

    /// A fresh arena with no structures.
    pub fn new() -> (r: Self)
        ensures
            r.wf(),
            r.structs().len() == 0,
            r.nodes_seq().len() == 0,
    {
        Space { structures: Vec::new(), nodes: Vec::new() }
    }

    /// Number of structures allocated so far.
    pub fn structure_count(&self) -> (r: usize)
        ensures
            r == self.structs().len(),
    {
        self.structures.len()
    }

    /// Read access to the structure a handle addresses.
    pub fn structure_at(&self, r: Gc<Structure>) -> (s: &Structure)
        requires
            self.valid(r),
        ensures
            *s == self.at(r),
    {
        &self.structures[r.raw as usize]
    }

    /// Assign the inline-cache id of a structure. The id is assigned once
    /// under external coordination and plays no role in the shape itself.
    pub fn set_structure_id(&mut self, r: Gc<Structure>, id: StructureID)
        requires
            old(self).wf(),
            old(self).valid(r),
        ensures
            final(self).wf(),
            final(self).structs().len() == old(self).structs().len(),
            final(self).nodes_seq() == old(self).nodes_seq(),
            final(self).at(r).spec_id() == id,
            forall|j: int|
                0 <= j < old(self).structs().len() ==> final(self).props_at_idx(j) == old(
                    self,
                ).props_at_idx(j),
            forall|q: Gc<Structure>|
                old(self).valid(q) && q.raw != r.raw ==> final(self).at(q) == old(self).at(q),
    {
        proof {
            let i = r.raw as int;
            assert(struct_wf(self.structures@, self.nodes@, i));
        }
        let st = &mut self.structures[r.raw as usize];
        st.id = id;
        proof {
            let ss1 = old(self).structures@;
            let ss2 = self.structures@;
            let u = r.raw as int;
            assert forall|j: int| true implies props_at(ss2, j) == props_at(ss1, j) by {
                lemma_props_update_same_denote(ss1, ss2, u, j);
            }
            assert forall|i: int| 0 <= i < ss2.len() implies #[trigger] struct_wf(
                ss2,
                self.nodes@,
                i,
            ) by {
                lemma_struct_wf_same_denote(ss1, ss2, self.nodes@, u, i);
            }
        }
    }

    /// Flatten the structure a handle addresses: a unique structure is
    /// marked so that the next transition forks instead of editing in
    /// place; on a shared structure or an already-flattened unique one this
    /// changes nothing.
    pub fn flatten(&mut self, r: Gc<Structure>)
        requires
            old(self).wf(),
            old(self).valid(r),
        ensures
            final(self).wf(),
            final(self).structs().len() == old(self).structs().len(),
            final(self).nodes_seq() == old(self).nodes_seq(),
            forall|q: Gc<Structure>|
                old(self).valid(q) && q.raw != r.raw ==> final(self).at(q) == old(self).at(q),
            forall|j: int|
                0 <= j < old(self).structs().len() ==> final(self).props_at_idx(j) == old(
                    self,
                ).props_at_idx(j),
            final(self).at(r).spec_unique_transition() == (old(self).at(r).spec_is_unique()
                || old(self).at(r).spec_unique_transition()),
            final(self).at(r).spec_is_unique() == old(self).at(r).spec_is_unique(),
            final(self).at(r).spec_slots_size() == old(self).at(r).spec_slots_size(),
            final(self).props(r) == old(self).props(r),
            old(self).at(r).spec_unique_transition() ==> final(self).structs() == old(
                self,
            ).structs(),
            !old(self).at(r).spec_is_unique() ==> final(self).structs() == old(self).structs(),
    {
        proof {
            assert(struct_wf(self.structures@, self.nodes@, r.raw as int));
        }
        let st = &mut self.structures[r.raw as usize];
        if st.is_unique() {
            st.transitions.enable_unique_transition();
        }
        proof {
            let ss1 = old(self).structures@;
            let ss2 = self.structures@;
            let u = r.raw as int;
            assert forall|j: int| true implies props_at(ss2, j) == props_at(ss1, j) by {
                lemma_props_update_same_denote(ss1, ss2, u, j);
            }
            assert forall|i: int| 0 <= i < ss2.len() implies #[trigger] struct_wf(
                ss2,
                self.nodes@,
                i,
            ) by {
                assert(struct_wf(ss1, self.nodes@, i));
                lemma_struct_wf_same_denote(ss1, ss2, self.nodes@, u, i);
            }
            if !ss1[u].spec_is_unique() || ss1[u].spec_unique_transition() {
                assert(ss2 =~= ss1);
            }
        }
    }

    /// The property map at a raw index, for stating frame conditions.
    pub closed spec fn props_at_idx(&self, i: int) -> Map<Symbol, MapEntry> {
        props_at(self.structures@, i)
    }

    /// The structure at a raw index.
    pub closed spec fn at_idx(&self, i: int) -> Structure {
        self.structures@[i]
    }
}

/// Chains only read below their head, so growing the arena changes no
/// existing structure's denoted map.
proof fn lemma_props_grow(ss1: Seq<Structure>, ss2: Seq<Structure>, i: int)
    requires
        ss1.len() <= ss2.len(),
        forall|j: int| 0 <= j < ss1.len() ==> ss1[j] == ss2[j],
        i < ss1.len(),
    ensures
        props_at(ss2, i) == props_at(ss1, i),
    decreases i,
{
    if 0 <= i {
        let st = ss1[i];
        match st.table {
            Option::Some(_) => {},
            Option::None => {
                match st.previous {
                    Option::Some(p) => {
                        if (p.raw as int) < i {
                            lemma_props_grow(ss1, ss2, p.raw as int);
                        }
                    },
                    Option::None => {},
                }
            },
        }
    }
}

/// Replacing one structure with one that denotes the same map (same table,
/// parent link and delta) changes no structure's denoted map.
proof fn lemma_props_update_same_denote(ss1: Seq<Structure>, ss2: Seq<Structure>, u: int, j: int)
    requires
        ss1.len() == ss2.len(),
        forall|k: int| 0 <= k < ss1.len() && k != u ==> ss1[k] == ss2[k],
        0 <= u < ss1.len(),
        ss2[u].table == ss1[u].table,
        ss2[u].previous == ss1[u].previous,
        ss2[u].added == ss1[u].added,
    ensures
        props_at(ss2, j) == props_at(ss1, j),
    decreases j,
{
    if 0 <= j < ss1.len() {
        let st1 = ss1[j];
        let st2 = ss2[j];
        match st2.table {
            Option::Some(_) => {},
            Option::None => {
                match st2.previous {
                    Option::Some(p) => {
                        if (p.raw as int) < j {
                            lemma_props_update_same_denote(ss1, ss2, u, p.raw as int);
                        }
                    },
                    Option::None => {},
                }
            },
        }
    }
}

/// Materialising the table of one structure (writing a table that equals its
/// denoted map, and possibly dropping its parent link) changes no
/// structure's denoted map.
proof fn lemma_props_update_materialise(ss1: Seq<Structure>, ss2: Seq<Structure>, u: int, j: int)
    requires
        ss1.len() == ss2.len(),
        forall|k: int| 0 <= k < ss1.len() && k != u ==> ss1[k] == ss2[k],
        0 <= u < ss1.len(),
        match ss2[u].table {
            Option::Some(t) => t@ == props_at(ss1, u),
            Option::None => false,
        },
    ensures
        props_at(ss2, j) == props_at(ss1, j),
    decreases j,
{
    if 0 <= j < ss1.len() {
        if j == u {
        } else {
            let st = ss2[j];
            match st.table {
                Option::Some(_) => {},
                Option::None => {
                    match st.previous {
                        Option::Some(p) => {
                            if (p.raw as int) < j {
                                lemma_props_update_materialise(ss1, ss2, u, p.raw as int);
                            }
                        },
                        Option::None => {},
                    }
                },
            }
        }
    }
}

/// Editing a structure that no table-less structure links to as parent
/// changes no other structure's denoted map.
proof fn lemma_props_update_isolated(ss1: Seq<Structure>, ss2: Seq<Structure>, u: int, j: int)
    requires
        ss1.len() == ss2.len(),
        forall|k: int| 0 <= k < ss1.len() && k != u ==> ss1[k] == ss2[k],
        0 <= u < ss1.len(),
        forall|k: int|
            0 <= k < ss1.len() && k != u && (#[trigger] ss1[k]).table is None && ss1[k].previous
                is Some ==> ss1[k].previous.unwrap().raw != u,
        j != u,
    ensures
        props_at(ss2, j) == props_at(ss1, j),
    decreases j,
{
    if 0 <= j < ss1.len() {
        let st = ss1[j];
        match st.table {
            Option::Some(_) => {},
            Option::None => {
                match st.previous {
                    Option::Some(p) => {
                        if (p.raw as int) < j {
                            assert(p.raw != u);
                            lemma_props_update_isolated(ss1, ss2, u, p.raw as int);
                        }
                    },
                    Option::None => {},
                }
            },
        }
    }
}

/// A partition of `[0, slots)` into live and deleted offsets pins the
/// count: live names plus deleted entries add up to `slots`.
proof fn lemma_partition_count(props: Map<Symbol, MapEntry>, dseq: Seq<u32>, slots: int)
    requires
        props.dom().finite(),
        partition_ok(props, dseq, slots),
        0 <= slots <= u32::MAX,
    ensures
        props.dom().len() + dseq.len() == slots,
    decreases slots,
{
    if slots == 0 {
        assert(props.dom() =~= Set::empty());
        if dseq.len() > 0 {
            assert(dseq[0] < 0);
        }
    } else {
        let o = slots - 1;
        assert(covered(props, dseq, o));
        if exists|k: Symbol| #[trigger] props.contains_key(k) && props[k].offset == o {
            let k = choose|k: Symbol| #[trigger] props.contains_key(k) && props[k].offset == o;
            let props2 = props.remove(k);
            assert(props2.dom() =~= props.dom().remove(k));
            assert(partition_ok(props2, dseq, o)) by {
                assert forall|o2: int| 0 <= o2 < o implies covered(props2, dseq, o2) by {
                    assert(covered(props, dseq, o2));
                    if exists|k2: Symbol| #[trigger] props.contains_key(k2) && props[k2].offset
                        == o2 {
                        let k2 = choose|k2: Symbol| #[trigger]
                            props.contains_key(k2) && props[k2].offset == o2;
                        assert(k2 != k);
                        assert(props2.contains_key(k2) && props2[k2].offset == o2);
                    }
                }
            }
            lemma_partition_count(props2, dseq, o);
        } else {
            assert(dseq.contains(o as u32));
            let j = choose|j: int| 0 <= j < dseq.len() && dseq[j] == o as u32;
            let dseq2 = dseq.remove(j);
            assert forall|a: int, b: int| 0 <= a < b < dseq2.len() implies dseq2[a] != dseq2[b] by {
                let sa = if a < j {
                    a
                } else {
                    a + 1
                };
                let sb = if b < j {
                    b
                } else {
                    b + 1
                };
                assert(dseq2[a] == dseq[sa] && dseq2[b] == dseq[sb]);
            }
            assert(partition_ok(props, dseq2, o)) by {
                assert forall|m: int| 0 <= m < dseq2.len() implies (#[trigger] dseq2[m]) < o by {
                    let sm = if m < j {
                        m
                    } else {
                        m + 1
                    };
                    assert(dseq2[m] == dseq[sm]);
                    assert(dseq[sm] != dseq[j]);
                }
                assert forall|k: Symbol| #[trigger] props.contains_key(k) implies props[k].offset
                    < o && !props[k].attrs.spec_is_not_found() by {
                    assert(props[k].offset != dseq[j]);
                }
                assert forall|k: Symbol, m: int|
                    #![trigger props.contains_key(k), dseq2[m]]
                    props.contains_key(k) && 0 <= m < dseq2.len() implies props[k].offset
                    != dseq2[m] by {
                    let sm = if m < j {
                        m
                    } else {
                        m + 1
                    };
                    assert(dseq2[m] == dseq[sm]);
                }
                assert forall|o2: int| 0 <= o2 < o implies covered(props, dseq2, o2) by {
                    assert(covered(props, dseq, o2));
                    if !(exists|k2: Symbol| #[trigger] props.contains_key(k2) && props[k2].offset
                        == o2) {
                        let m = choose|m: int| 0 <= m < dseq.len() && dseq[m] == o2 as u32;
                        assert(o2 as u32 != o as u32);
                        assert(m != j);
                        let m2 = if m < j {
                            m
                        } else {
                            m - 1
                        };
                        assert(dseq2[m2] == dseq[m]);
                        assert(dseq2.contains(o2 as u32));
                    }
                }
            }
            lemma_partition_count(props, dseq2, o);
        }
    }
}

/// The least power of two no smaller than `sz`, reached by doubling from
/// `p`.
pub open spec fn clp2up(sz: int, p: int) -> int
    decreases 2 * sz - p,
{
    if p <= 0 || p >= sz {
        p
    } else {
        clp2up(sz, 2 * p)
    }
}

/// The slot-vector capacity backing a structure of `sz` slots: nothing for
/// an empty shape, eight slots up to seven, else the least power of two no
/// smaller than `sz`.
pub open spec fn storage_capacity_spec(sz: int) -> int {
    if sz == 0 {
        0
    } else if sz < 8 {
        8
    } else {
        clp2up(sz, 8)
    }
}

/// Every stacked index is a table-less structure with a pending delta.
spec fn stack_ok(ss: Seq<Structure>, stack: Seq<u32>) -> bool {
    forall|t: int|
        0 <= t < stack.len() ==> 0 <= (#[trigger] stack[t]) < ss.len() && ss[stack[t] as int].table
            is None && !(ss[stack[t] as int].added.0 is Dummy)
}

/// Inserting a fresh property at the recycled (or next) slot offset keeps
/// the live/deleted partition: the new offset comes off the top of the
/// deleted stack when one is there, else the slot count grows by one.
proof fn lemma_partition_insert(
    props1: Map<Symbol, MapEntry>,
    props2: Map<Symbol, MapEntry>,
    dseq1: Seq<u32>,
    dseq2: Seq<u32>,
    slots1: int,
    slots2: int,
    name: Symbol,
    offset: u32,
    attributes: AttrSafe,
)
    requires
        partition_ok(props1, dseq1, slots1),
        0 <= slots1 <= u32::MAX,
        !props1.contains_key(name),
        !attributes.spec_is_not_found(),
        props2 == props1.insert(name, MapEntry { offset, attrs: attributes }),
        dseq1.len() > 0 ==> offset == dseq1[0] && dseq2 == dseq1.subrange(1, dseq1.len() as int)
            && slots2 == slots1,
        dseq1.len() == 0 ==> offset == slots1 && dseq2 == dseq1 && slots2 == slots1 + 1,
    ensures
        partition_ok(props2, dseq2, slots2),
{
    let entry = MapEntry { offset, attrs: attributes };
    if dseq1.len() > 0 {
        assert(partition_ok(props2, dseq2, slots2)) by {
            assert forall|k: Symbol| #[trigger] props2.contains_key(k)
                implies props2[k].offset < slots2 && !props2[k].attrs.spec_is_not_found() by {
                if k != name {
                    assert(props1.contains_key(k));
                } else {
                    assert(0 <= 0 < dseq1.len());
                }
            }
            assert forall|k1: Symbol, k2: Symbol|
                #![trigger props2.contains_key(k1), props2.contains_key(k2)]
                props2.contains_key(k1) && props2.contains_key(k2) && k1 != k2
                implies props2[k1].offset != props2[k2].offset by {
                if k1 != name && k2 != name {
                    assert(props1.contains_key(k1) && props1.contains_key(k2));
                } else if k1 == name {
                    assert(props1.contains_key(k2));
                    assert(props1[k2].offset != dseq1[0]);
                } else {
                    assert(props1.contains_key(k1));
                    assert(props1[k1].offset != dseq1[0]);
                }
            }
            assert forall|a: int, b: int|
                0 <= a < b < dseq2.len() implies dseq2[a] != dseq2[b] by {
                assert(dseq2[a] == dseq1[a + 1] && dseq2[b] == dseq1[b + 1]);
            }
            assert forall|j: int| 0 <= j < dseq2.len() implies (#[trigger] dseq2[j])
                < slots2 by {
                assert(dseq2[j] == dseq1[j + 1]);
            }
            assert forall|k: Symbol, j: int|
                #![trigger props2.contains_key(k), dseq2[j]]
                props2.contains_key(k) && 0 <= j < dseq2.len() implies props2[k].offset
                != dseq2[j] by {
                assert(dseq2[j] == dseq1[j + 1]);
                if k != name {
                    assert(props1.contains_key(k));
                } else {
                    assert(dseq1[0] != dseq1[j + 1]);
                }
            }
            assert forall|o: int| 0 <= o < slots2 implies covered(props2, dseq2, o) by {
                assert(covered(props1, dseq1, o));
                if exists|k: Symbol| #[trigger] props1.contains_key(k) && props1[k].offset
                    == o {
                    let k = choose|k: Symbol| #[trigger]
                        props1.contains_key(k) && props1[k].offset == o;
                    assert(k != name);
                    assert(props2.contains_key(k) && props2[k].offset == o);
                } else {
                    let mm = choose|mm: int| 0 <= mm < dseq1.len() && dseq1[mm] == o
                        as u32;
                    if mm == 0 {
                        assert(props2.contains_key(name) && props2[name].offset == o);
                    } else {
                        assert(dseq2[mm - 1] == dseq1[mm]);
                        assert(dseq2.contains(o as u32));
                    }
                }
            }
        }
    } else {
        assert(dseq1 =~= Seq::<u32>::empty());
        assert(partition_ok(props2, dseq2, slots2)) by {
            assert forall|k: Symbol| #[trigger] props2.contains_key(k)
                implies props2[k].offset < slots2 && !props2[k].attrs.spec_is_not_found() by {
                if k != name {
                    assert(props1.contains_key(k));
                }
            }
            assert forall|k1: Symbol, k2: Symbol|
                #![trigger props2.contains_key(k1), props2.contains_key(k2)]
                props2.contains_key(k1) && props2.contains_key(k2) && k1 != k2
                implies props2[k1].offset != props2[k2].offset by {
                if k1 != name && k2 != name {
                    assert(props1.contains_key(k1) && props1.contains_key(k2));
                } else if k1 == name {
                    assert(props1.contains_key(k2));
                } else {
                    assert(props1.contains_key(k1));
                }
            }
            assert forall|o: int| 0 <= o < slots2 implies covered(props2, dseq2, o) by {
                if o < slots1 {
                    assert(covered(props1, dseq1, o));
                    if exists|k: Symbol| #[trigger] props1.contains_key(k) && props1[k].offset == o {
                        let k = choose|k: Symbol| #[trigger]
                            props1.contains_key(k) && props1[k].offset == o;
                        assert(k != name);
                        assert(props2.contains_key(k) && props2[k].offset == o);
                    }
                } else {
                    assert(props2.contains_key(name) && props2[name].offset == o);
                }
            }
        }
    }
}

/// Replaying a stack of pending deltas over a base map, oldest (last) first.
pub closed spec fn replay(ss: Seq<Structure>, stack: Seq<u32>, base: Map<Symbol, MapEntry>) -> Map<
    Symbol,
    MapEntry,
>
    decreases stack.len(),
{
    if stack.len() == 0 {
        base
    } else {
        let rest = replay(ss, stack.subrange(1, stack.len() as int), base);
        let st = ss[stack[0] as int];
        rest.insert(st.added.0, st.added.1)
    }
}

/// Replaying a concatenation replays the older (right) part first.
proof fn lemma_replay_concat(
    ss: Seq<Structure>,
    s1: Seq<u32>,
    s2: Seq<u32>,
    base: Map<Symbol, MapEntry>,
)
    ensures
        replay(ss, s1 + s2, base) == replay(ss, s1, replay(ss, s2, base)),
    decreases s1.len(),
{
    if s1.len() == 0 {
        assert(s1 + s2 =~= s2);
    } else {
        let s = s1 + s2;
        assert(s.subrange(1, s.len() as int) =~= s1.subrange(1, s1.len() as int) + s2);
        lemma_replay_concat(ss, s1.subrange(1, s1.len() as int), s2, base);
        assert(s[0] == s1[0]);
    }
}

/// Well-formedness of a structure carries over to a grown arena.
proof fn lemma_struct_wf_grow(
    ss1: Seq<Structure>,
    ss2: Seq<Structure>,
    n1: Seq<DeletedEntry>,
    n2: Seq<DeletedEntry>,
    i: int,
)
    requires
        struct_wf(ss1, n1, i),
        0 <= i < ss1.len(),
        ss1.len() <= ss2.len(),
        forall|j: int| 0 <= j < ss1.len() ==> ss1[j] == ss2[j],
        n1.len() <= n2.len(),
        forall|j: int| 0 <= j < n1.len() ==> n1[j] == n2[j],
    ensures
        struct_wf(ss2, n2, i),
{
    let st = ss1[i];
    lemma_props_grow(ss1, ss2, i);
    crate::deleted::lemma_holder_grow(n1, n2, st.deleted);
    assert forall|k: TransitionKey| #[trigger] ss2[i].transitions@.contains_key(k)
        implies trans_cache_ok(ss2, i, k) by {
        assert(trans_cache_ok(ss1, i, k));
        let c = ss1[i].transitions@[k] as int;
        lemma_props_grow(ss1, ss2, c);
    }
}

/// Well-formedness of every structure carries over when one structure is
/// replaced by one with the same table, parent link, delta, deleted stack
/// and slot count (its transitions, id or prototype may differ, and its
/// transitions may only gain keys whose cache conditions hold).
proof fn lemma_struct_wf_same_denote(
    ss1: Seq<Structure>,
    ss2: Seq<Structure>,
    nodes: Seq<DeletedEntry>,
    u: int,
    i: int,
)
    requires
        struct_wf(ss1, nodes, i),
        0 <= i < ss1.len(),
        ss1.len() == ss2.len(),
        forall|k: int| 0 <= k < ss1.len() && k != u ==> ss1[k] == ss2[k],
        0 <= u < ss1.len(),
        ss2[u].table == ss1[u].table,
        ss2[u].previous == ss1[u].previous,
        ss2[u].added == ss1[u].added,
        ss2[u].deleted == ss1[u].deleted,
        ss2[u].calculated_size == ss1[u].calculated_size,
        ss2[u].transitions.wf(),
        ss2[u].spec_is_unique() == ss1[u].spec_is_unique(),
        ss2[u].transit_count <= 32,
        forall|k: TransitionKey| #[trigger]
            ss2[u].transitions@.contains_key(k) ==> (ss1[u].transitions@.contains_key(k)
                && ss2[u].transitions@[k] == ss1[u].transitions@[k]) || trans_cache_ok(ss2, u, k),
        ss2[u].spec_is_unique() ==> ss2[u].transitions@ == Map::<TransitionKey, u32>::empty(),
    ensures
        struct_wf(ss2, nodes, i),
{
    assert forall|j: int| true implies props_at(ss2, j) == props_at(ss1, j) by {
        lemma_props_update_same_denote(ss1, ss2, u, j);
    }
    if i == u {
        assert(ss2[i].spec_slots_size() == ss1[i].spec_slots_size());
        assert forall|k: TransitionKey| #[trigger] ss2[i].transitions@.contains_key(k)
            implies trans_cache_ok(ss2, i, k) by {
            if ss1[u].transitions@.contains_key(k) && ss2[u].transitions@[k]
                == ss1[u].transitions@[k] {
                assert(trans_cache_ok(ss1, i, k));
            }
        }
    } else {
        assert forall|k: TransitionKey| #[trigger] ss2[i].transitions@.contains_key(k)
            implies trans_cache_ok(ss2, i, k) by {
            assert(trans_cache_ok(ss1, i, k));
        }
        match ss1[i].previous {
            Option::Some(p) => {
                assert(ss2[p.raw as int].spec_is_unique() == ss1[p.raw as int].spec_is_unique());
            },
            Option::None => {},
        }
    }
}

/// Well-formedness of the other structures carries over when a structure
/// that nobody chains to (a unique one, or one whose delta is still unset)
/// is edited arbitrarily, and the node arena only grows.
proof fn lemma_struct_wf_isolated(
    ss1: Seq<Structure>,
    ss2: Seq<Structure>,
    n1: Seq<DeletedEntry>,
    n2: Seq<DeletedEntry>,
    u: int,
    i: int,
)
    requires
        struct_wf(ss1, n1, i),
        0 <= i < ss1.len(),
        i != u,
        0 <= u < ss1.len(),
        ss1.len() == ss2.len(),
        forall|k: int| 0 <= k < ss1.len() && k != u ==> ss1[k] == ss2[k],
        ss1[u].spec_is_unique() || ss1[u].added.0 is Dummy,
        ss2[u].spec_is_unique() == ss1[u].spec_is_unique(),
        forall|k: int|
            0 <= k < ss1.len() && k != u && (#[trigger] ss1[k]).table is None && ss1[k].previous
                is Some ==> ss1[k].previous.unwrap().raw != u,
        n1.len() <= n2.len(),
        forall|j: int| 0 <= j < n1.len() ==> n1[j] == n2[j],
    ensures
        struct_wf(ss2, n2, i),
{
    assert forall|j: int| j != u implies props_at(ss2, j) == props_at(ss1, j) by {
        lemma_props_update_isolated(ss1, ss2, u, j);
    }
    crate::deleted::lemma_holder_grow(n1, n2, ss1[i].deleted);
    assert forall|k: TransitionKey| #[trigger] ss2[i].transitions@.contains_key(k)
        implies trans_cache_ok(ss2, i, k) by {
        assert(trans_cache_ok(ss1, i, k));
        let c = ss1[i].transitions@[k] as int;
        assert(!ss1[c].spec_is_unique() && !(ss1[c].added.0 is Dummy));
        assert(c != u);
    }
    match ss1[i].previous {
        Option::Some(p) => {
            if ss1[i].table is None {
                assert(p.raw != u);
                assert(ss2[p.raw as int] == ss1[p.raw as int]);
            }
        },
        Option::None => {},
    }
}

/// Well-formedness of every structure carries over when one structure has
/// its denoted map written out as a table and its parent link dropped.
proof fn lemma_struct_wf_materialise(
    ss1: Seq<Structure>,
    ss2: Seq<Structure>,
    nodes: Seq<DeletedEntry>,
    u: int,
    i: int,
)
    requires
        struct_wf(ss1, nodes, i),
        0 <= i < ss1.len(),
        ss1.len() == ss2.len(),
        forall|k: int| 0 <= k < ss1.len() && k != u ==> ss1[k] == ss2[k],
        0 <= u < ss1.len(),
        match ss2[u].table {
            Option::Some(t) => t@ == props_at(ss1, u) && t.wf(),
            Option::None => false,
        },
        ss2[u].previous is None,
        ss2[u].spec_slots_size() == ss1[u].spec_slots_size(),
        ss2[u].transitions == ss1[u].transitions,
        ss2[u].deleted == ss1[u].deleted,
        ss2[u].added == ss1[u].added,
        ss2[u].prototype == ss1[u].prototype,
        ss2[u].id == ss1[u].id,
        ss2[u].transit_count == ss1[u].transit_count,
    ensures
        struct_wf(ss2, nodes, i),
{
    assert forall|j: int| true implies props_at(ss2, j) == props_at(ss1, j) by {
        lemma_props_update_materialise(ss1, ss2, u, j);
    }
    assert(ss2[u].spec_is_unique() == ss1[u].spec_is_unique());
    assert forall|k: TransitionKey| #[trigger] ss2[i].transitions@.contains_key(k)
        implies trans_cache_ok(ss2, i, k) by {
        assert(ss1[i].transitions@.contains_key(k));
        assert(trans_cache_ok(ss1, i, k));
        let c = ss1[i].transitions@[k] as int;
        assert(ss2[c].spec_is_unique() == ss1[c].spec_is_unique());
        assert(ss2[c].added == ss1[c].added);
    }
    if i != u {
        match ss1[i].previous {
            Option::Some(p) => {
                assert(ss2[p.raw as int].spec_is_unique() == ss1[p.raw as int].spec_is_unique());
            },
            Option::None => {},
        }
    }
}

impl Structure {
    /// Derive a successor of `previous`: parent link set, prototype and
    /// deleted stack carried over, the table inherited (as a fresh copy)
    /// only when both the derivation and the parent are unique, transitions
    /// enabled iff the derivation is shared.
    fn ctor(space: &mut Space, previous: Gc<Structure>, unique: bool) -> (r: Gc<Structure>)
        requires
            old(space).wf(),
            old(space).valid(previous),
            old(space).structs().len() < u32::MAX,
            !unique ==> !old(space).at(previous).spec_is_unique(),
            (unique && old(space).at(previous).spec_is_unique()) ==> old(space).at(
                previous,
            ).spec_has_table(),
        ensures
            final(space).wf(),
            final(space).structs().len() == old(space).structs().len() + 1,
            r.raw == old(space).structs().len(),
            final(space).valid(r),
            final(space).nodes_seq() == old(space).nodes_seq(),
            forall|j: int|
                0 <= j < old(space).structs().len() ==> final(space).structs()[j] == old(
                    space,
                ).structs()[j],
            forall|j: int|
                0 <= j < old(space).structs().len() ==> final(space).props_at_idx(j) == old(
                    space,
                ).props_at_idx(j),
            final(space).props(r) == old(space).props(previous),
            final(space).at(r).spec_is_unique() == unique,
            final(space).at(r).spec_slots_size() == old(space).at(previous).spec_slots_size(),
            final(space).at(r).spec_deleted() == old(space).at(previous).spec_deleted(),
            final(space).at(r).spec_added().0 is Dummy,
            final(space).at(r).spec_previous() == Some(previous),
            final(space).at(r).spec_prototype() == old(space).at(previous).spec_prototype(),
            final(space).at(r).spec_is_indexed() == old(space).at(previous).spec_is_indexed(),
            !final(space).at(r).spec_unique_transition(),
            final(space).at(r).spec_transit_count() == 0,
            final(space).at(r).spec_id() == 0,
            final(space).at(r).spec_transitions() == Map::<TransitionKey, u32>::empty(),
            final(space).at(r).spec_has_table() == (unique && old(space).at(
                previous,
            ).spec_is_unique()),
    {
        let idx = previous.raw as usize;
        proof {
            assert(struct_wf(space.structures@, space.nodes@, idx as int));
        }
        let prev_unique = space.structures[idx].is_unique();
        let prev_indexed = space.structures[idx].is_indexed();
        let prev_proto = space.structures[idx].prototype;
        let prev_deleted = space.structures[idx].deleted;
        let prev_slots = space.structures[idx].get_slots_size();
        let calculated: u32 = prev_slots as u32;
        let table: Option<PropTable> = if unique && prev_unique {
            match &space.structures[idx].table {
                Option::Some(t) => Some(t.duplicate()),
                Option::None => {
                    proof {
                        assert(false);
                    }
                    None
                },
            }
        } else {
            None
        };
        let new_raw: u32 = space.structures.len() as u32;
        let st = Structure {
            id: 0,
            transitions: TransitionsTable::new(!unique, prev_indexed),
            table,
            deleted: prev_deleted,
            added: (Symbol::Dummy, MapEntry::not_found()),
            previous: Some(previous),
            prototype: prev_proto,
            calculated_size: calculated,
            transit_count: 0,
        };
        space.structures.push(st);
        let r = Gc::from_handle(new_raw);
        proof {
            let ss1 = old(space).structures@;
            let ss2 = space.structures@;
            let nodes = space.nodes@;
            let n = ss1.len() as int;
            assert forall|j: int| 0 <= j < n implies props_at(ss2, j) == props_at(ss1, j) by {
                lemma_props_grow(ss1, ss2, j);
            }
            lemma_props_grow(ss1, ss2, idx as int);
            assert(props_at(ss2, n) == props_at(ss1, idx as int));
            assert forall|i: int| 0 <= i < ss2.len() implies #[trigger] struct_wf(
                ss2,
                nodes,
                i,
            ) by {
                if i < n {
                    lemma_struct_wf_grow(ss1, ss2, nodes, nodes, i);
                } else {
                    assert(struct_wf(ss1, nodes, idx as int));
                    assert(ss2[i].spec_slots_size() == ss1[idx as int].spec_slots_size());
                    assert(props_at(ss2, i) == props_at(ss1, idx as int));
                    crate::deleted::lemma_holder_grow(nodes, nodes, ss1[idx as int].deleted);
                    assert(partition_ok(
                        props_at(ss2, i),
                        holder_seq(nodes, ss2[i].deleted),
                        ss2[i].spec_slots_size(),
                    ));
                }
            }
        }
        r
    }

    /// Lazily rebuild the complete property map by walking the parent chain
    /// to the first table-bearing ancestor (or a bare root), then replaying
    /// the pending deltas oldest first. Afterwards the structure is
    /// self-contained and drops its parent link.
    pub fn allocate_table(space: &mut Space, this: Gc<Structure>)
        requires
            old(space).wf(),
            old(space).valid(this),
            !old(space).at(this).spec_has_table(),
        ensures
            final(space).wf(),
            final(space).structs().len() == old(space).structs().len(),
            final(space).nodes_seq() == old(space).nodes_seq(),
            forall|j: int|
                0 <= j < old(space).structs().len() ==> final(space).props_at_idx(j) == old(
                    space,
                ).props_at_idx(j),
            forall|q: Gc<Structure>|
                old(space).valid(q) && q.raw != this.raw ==> final(space).at(q) == old(space).at(
                    q,
                ),
            final(space).at(this).spec_has_table(),
            final(space).at(this).spec_table_map() == old(space).props(this),
            final(space).at(this).spec_previous() is None,
            final(space).at(this).spec_slots_size() == old(space).at(this).spec_slots_size(),
            final(space).at(this).spec_is_unique() == old(space).at(this).spec_is_unique(),
            final(space).at(this).spec_is_indexed() == old(space).at(this).spec_is_indexed(),
            final(space).at(this).spec_unique_transition() == old(space).at(
                this,
            ).spec_unique_transition(),
            final(space).at(this).spec_deleted() == old(space).at(this).spec_deleted(),
            final(space).at(this).spec_added() == old(space).at(this).spec_added(),
            final(space).at(this).spec_prototype() == old(space).at(this).spec_prototype(),
            final(space).at(this).spec_id() == old(space).at(this).spec_id(),
            final(space).at(this).spec_transit_count() == old(space).at(this).spec_transit_count(),
            final(space).at(this).spec_transitions() == old(space).at(this).spec_transitions(),
    {
        let this_i = this.raw as usize;
        proof {
            assert(struct_wf(space.structures@, space.nodes@, this_i as int));
        }
        let ghost ss = space.structures@;
        let mut stack: Vec<u32> = Vec::new();
        if space.structures[this_i].is_adding_map() {
            stack.push(this.raw);
            proof {
                let st = ss[this_i as int];
                assert(st.previous is Some);
                let p = st.previous.unwrap();
                assert((p.raw as int) < this_i as int);
                assert(stack@.len() == 1);
                assert(stack@[0] == this.raw);
                let base_map = props_at(ss, p.raw as int);
                let tail = stack@.subrange(1, stack@.len() as int);
                assert(tail =~= Seq::<u32>::empty());
                assert(replay(ss, tail, base_map) == base_map);
                assert(replay(ss, stack@, base_map) == replay(ss, tail, base_map).insert(
                    ss[stack@[0] as int].added.0,
                    ss[stack@[0] as int].added.1,
                ));
                assert(ss[stack@[0] as int] == st);
                assert(replay(ss, stack@, base_map) == base_map.insert(st.added.0, st.added.1));
                assert(props_at(ss, this_i as int) == base_map.insert(st.added.0, st.added.1));
            }
        }
        let mut current: Option<Gc<Structure>> = space.structures[this_i].previous;
        let mut base: PropTable = PropTable::new();
        proof {
            assert(base@ == Map::<Symbol, MapEntry>::empty());
        }
        loop
            invariant_except_break
                *space == *old(space),
                old(space).wf(),
                old(space).valid(this),
                ss == space.structures@,
                this_i == this.raw as usize,
                base.wf(),
                base@ =~= Map::<Symbol, MapEntry>::empty(),
                stack_ok(ss, stack@),
                match current {
                    Option::Some(c) => (c.raw as int) < ss.len() && replay(
                        ss,
                        stack@,
                        props_at(ss, c.raw as int),
                    ) == props_at(ss, this_i as int),
                    Option::None => replay(ss, stack@, Map::empty()) == props_at(
                        ss,
                        this_i as int,
                    ),
                },
            ensures
                *space == *old(space),
                ss == space.structures@,
                this_i == this.raw as usize,
                base.wf(),
                replay(ss, stack@, base@) == props_at(ss, this_i as int),
                stack_ok(ss, stack@),
            decreases (match current {
                Option::Some(c) => c.raw as int + 1,
                Option::None => 0,
            }),
        {
            match current {
                Option::Some(cur) => {
                    let ci = cur.raw as usize;
                    proof {
                        assert(struct_wf(ss, space.nodes@, ci as int));
                    }
                    if space.structures[ci].has_table() {
                        match &space.structures[ci].table {
                            Option::Some(t) => {
                                base = t.duplicate();
                            },
                            Option::None => {
                                proof {
                                    assert(false);
                                }
                            },
                        }
                        break ;
                    } else {
                        if space.structures[ci].is_adding_map() {
                            proof {
                                let st = ss[ci as int];
                                assert(st.previous is Some);
                                let p = st.previous.unwrap();
                                assert((p.raw as int) < ci as int);
                                let nb = props_at(ss, p.raw as int);
                                let single = seq![cur.raw];
                                assert(single.len() == 1 && single[0] == cur.raw);
                                let tail = single.subrange(1, 1);
                                assert(tail =~= Seq::<u32>::empty());
                                assert(replay(ss, tail, nb) == nb);
                                assert(replay(ss, single, nb) == replay(ss, tail, nb).insert(
                                    ss[single[0] as int].added.0,
                                    ss[single[0] as int].added.1,
                                ));
                                assert(ss[single[0] as int] == st);
                                assert(replay(ss, single, nb) == nb.insert(
                                    st.added.0,
                                    st.added.1,
                                ));
                                assert(props_at(ss, ci as int) == nb.insert(
                                    st.added.0,
                                    st.added.1,
                                ));
                                assert(stack@.push(cur.raw) =~= stack@ + single);
                                lemma_replay_concat(ss, stack@, single, nb);
                            }
                            stack.push(cur.raw);
                        }
                        current = space.structures[ci].previous;
                    }
                },
                Option::None => {
                    break ;
                },
            }
        }
        let ghost base0 = base@;
        let mut k = stack.len();
        proof {
            assert(stack@.subrange(k as int, stack@.len() as int) =~= Seq::<u32>::empty());
        }
        while k > 0
            invariant
                *space == *old(space),
                ss == space.structures@,
                0 <= k <= stack@.len(),
                base.wf(),
                stack_ok(ss, stack@),
                base@ == replay(ss, stack@.subrange(k as int, stack@.len() as int), base0),
                replay(ss, stack@, base0) == props_at(ss, this_i as int),
            decreases k,
        {
            k = k - 1;
            let idx = stack[k];
            let (nm, ent) = space.structures[idx as usize].added;
            proof {
                let sub1 = stack@.subrange(k as int, stack@.len() as int);
                let sub2 = stack@.subrange(k + 1 as int, stack@.len() as int);
                assert(sub1[0] == stack@[k as int]);
                assert(sub1.subrange(1, sub1.len() as int) =~= sub2);
            }
            base.set(nm, ent);
        }
        proof {
            assert(stack@.subrange(0, stack@.len() as int) =~= stack@);
            assert(base@ == props_at(ss, this_i as int));
            // the new slot count equals the cached one
            let st = ss[this_i as int];
            let props = props_at(ss, this_i as int);
            let dseq = holder_seq(space.nodes@, st.deleted);
            assert(struct_wf(ss, space.nodes@, this_i as int));
            lemma_props_at_finite(ss, this_i as int);
            lemma_partition_count(props, dseq, st.spec_slots_size());
            base.lemma_enumeration();
            assert(base.spec_len() + st.deleted.size == st.spec_slots_size());
        }
        let st = &mut space.structures[this_i];
        st.table = Some(base);
        st.previous = None;
        proof {
            let ss1 = old(space).structures@;
            let ss2 = space.structures@;
            let u = this_i as int;
            assert forall|j: int| true implies props_at(ss2, j) == props_at(ss1, j) by {
                lemma_props_update_materialise(ss1, ss2, u, j);
            }
            assert forall|i: int| 0 <= i < ss2.len() implies #[trigger] struct_wf(
                ss2,
                space.nodes@,
                i,
            ) by {
                lemma_struct_wf_materialise(ss1, ss2, space.nodes@, u, i);
            }
        }
    }

    /// Remove a present property from a unique, materialised structure and
    /// push its freed slot offset onto the deleted stack.
    pub fn delete(space: &mut Space, this: Gc<Structure>, name: Symbol)
        requires
            old(space).wf(),
            old(space).valid(this),
            old(space).at(this).spec_is_unique(),
            old(space).at(this).spec_has_table(),
            old(space).props(this).contains_key(name),
            old(space).nodes_seq().len() < u32::MAX,
        ensures
            final(space).wf(),
            final(space).structs().len() == old(space).structs().len(),
            final(space).nodes_seq().len() == old(space).nodes_seq().len() + 1,
            forall|q: Gc<Structure>|
                old(space).valid(q) && q.raw != this.raw ==> final(space).at(q) == old(space).at(
                    q,
                ),
            forall|j: int|
                0 <= j < old(space).structs().len() && j != this.raw ==> final(space).props_at_idx(j) == old(space).props_at_idx(j),
            final(space).props(this) == old(space).props(this).remove(name),
            final(space).at(this).spec_has_table(),
            final(space).at(this).spec_is_unique(),
            final(space).at(this).spec_slots_size() == old(space).at(this).spec_slots_size(),
            final(space).at(this).spec_deleted().size == old(space).at(
                this,
            ).spec_deleted().size + 1,
            holder_seq(final(space).nodes_seq(), final(space).at(this).spec_deleted())
                =~= seq![old(space).props(this)[name].offset] + holder_seq(
                old(space).nodes_seq(),
                old(space).at(this).spec_deleted(),
            ),
            final(space).at(this).spec_unique_transition() == old(space).at(
                this,
            ).spec_unique_transition(),
            final(space).at(this).spec_prototype() == old(space).at(this).spec_prototype(),
            final(space).at(this).spec_previous() == old(space).at(this).spec_previous(),
    {
        let this_i = this.raw as usize;
        proof {
            assert(struct_wf(space.structures@, space.nodes@, this_i as int));
        }
        let off: u32 = match &space.structures[this_i].table {
            Option::Some(t) => match t.get(name) {
                Option::Some(e) => e.offset,
                Option::None => {
                    proof {
                        assert(false);
                    }
                    0
                },
            },
            Option::None => {
                proof {
                    assert(false);
                }
                0
            },
        };
        let mut holder = space.structures[this_i].deleted;
        proof {
            let st = space.structures@[this_i as int];
            match st.table {
                Option::Some(t) => {
                    t.lemma_enumeration();
                    assert(t@.dom().contains(name));
                    assert(t.spec_len() >= 1);
                },
                Option::None => {},
            }
            assert(holder.size < u32::MAX);
        }
        holder.push(&mut space.nodes, off);
        let st = &mut space.structures[this_i];
        match &mut st.table {
            Option::Some(t) => {
                t.remove(name);
            },
            Option::None => {
                proof {
                    assert(false);
                }
            },
        }
        st.deleted = holder;
        proof {
            let ss1 = old(space).structures@;
            let ss2 = space.structures@;
            let n1 = old(space).nodes@;
            let n2 = space.nodes@;
            let u = this_i as int;
            let props1 = props_at(ss1, u);
            let props2 = props_at(ss2, u);
            let dseq1 = holder_seq(n1, ss1[u].deleted);
            let dseq2 = holder_seq(n2, ss2[u].deleted);
            let slots = ss1[u].spec_slots_size();
            assert(props2 == props1.remove(name));
            assert(dseq2 =~= seq![off] + dseq1);
            assert(nodes_wf(n2)) by {
                assert forall|m: int| 0 <= m < n2.len() implies match (#[trigger] n2[m]).prev {
                    Option::Some(p) => p < m,
                    Option::None => true,
                } by {
                    if m < n1.len() {
                        assert(n2[m] == n1[m]);
                    }
                }
            }
            assert forall|k: int|
                0 <= k < ss1.len() && k != u && (#[trigger] ss1[k]).table is None && ss1[k].previous
                    is Some implies ss1[k].previous.unwrap().raw != u by {
                assert(struct_wf(ss1, n1, k));
            }
            assert forall|j: int| j != u implies props_at(ss2, j) == props_at(ss1, j) by {
                lemma_props_update_isolated(ss1, ss2, u, j);
            }
            assert(ss2[u].spec_slots_size() == slots);
            assert(partition_ok(props2, dseq2, slots)) by {
                assert forall|j: int| 0 <= j < dseq2.len() implies (#[trigger] dseq2[j])
                    < slots by {
                    if j > 0 {
                        assert(dseq2[j] == dseq1[j - 1]);
                    }
                }
                assert forall|a: int, b: int|
                    0 <= a < b < dseq2.len() implies dseq2[a] != dseq2[b] by {
                    if a == 0 {
                        assert(props1.contains_key(name));
                        assert(dseq2[b] == dseq1[b - 1]);
                    } else {
                        assert(dseq2[a] == dseq1[a - 1] && dseq2[b] == dseq1[b - 1]);
                    }
                }
                assert forall|k: Symbol, j: int|
                    #![trigger props2.contains_key(k), dseq2[j]]
                    props2.contains_key(k) && 0 <= j < dseq2.len() implies props2[k].offset
                    != dseq2[j] by {
                    assert(props1.contains_key(k) && props1.contains_key(name));
                    if j > 0 {
                        assert(dseq2[j] == dseq1[j - 1]);
                    }
                }
                assert forall|o: int| 0 <= o < slots implies covered(props2, dseq2, o) by {
                    assert(covered(props1, dseq1, o));
                    if exists|k: Symbol| #[trigger] props1.contains_key(k) && props1[k].offset
                        == o {
                        let k = choose|k: Symbol| #[trigger]
                            props1.contains_key(k) && props1[k].offset == o;
                        if k == name {
                            assert(dseq2[0] == off);
                            assert(dseq2.contains(o as u32));
                        } else {
                            assert(props2.contains_key(k) && props2[k].offset == o);
                        }
                    } else {
                        let m = choose|m: int| 0 <= m < dseq1.len() && dseq1[m] == o as u32;
                        assert(dseq2[m + 1] == dseq1[m]);
                        assert(dseq2.contains(o as u32));
                    }
                }
            }
            assert forall|i: int| 0 <= i < ss2.len() implies #[trigger] struct_wf(
                ss2,
                n2,
                i,
            ) by {
                if i != u {
                    lemma_struct_wf_isolated(ss1, ss2, n1, n2, u, i);
                } else {
                    assert(ss1[u].transitions@ == Map::<TransitionKey, u32>::empty());
                    assert(struct_wf(ss2, n2, u));
                }
            }
        }
    }

    /// Overwrite the attributes of a present property of a unique,
    /// materialised structure.
    pub fn change_attributes(
        space: &mut Space,
        this: Gc<Structure>,
        name: Symbol,
        attributes: AttrSafe,
    )
        requires
            old(space).wf(),
            old(space).valid(this),
            old(space).at(this).spec_is_unique(),
            old(space).at(this).spec_has_table(),
            old(space).props(this).contains_key(name),
            !attributes.spec_is_not_found(),
        ensures
            final(space).wf(),
            final(space).structs().len() == old(space).structs().len(),
            final(space).nodes_seq() == old(space).nodes_seq(),
            forall|q: Gc<Structure>|
                old(space).valid(q) && q.raw != this.raw ==> final(space).at(q) == old(space).at(
                    q,
                ),
            forall|j: int|
                0 <= j < old(space).structs().len() && j != this.raw ==> final(space).props_at_idx(j) == old(space).props_at_idx(j),
            final(space).props(this) == old(space).props(this).insert(
                name,
                MapEntry { offset: old(space).props(this)[name].offset, attrs: attributes },
            ),
            final(space).at(this).spec_has_table(),
            final(space).at(this).spec_is_unique(),
            final(space).at(this).spec_slots_size() == old(space).at(this).spec_slots_size(),
            final(space).at(this).spec_deleted() == old(space).at(this).spec_deleted(),
            final(space).at(this).spec_unique_transition() == old(space).at(
                this,
            ).spec_unique_transition(),
            final(space).at(this).spec_prototype() == old(space).at(this).spec_prototype(),
    {
        let this_i = this.raw as usize;
        proof {
            assert(struct_wf(space.structures@, space.nodes@, this_i as int));
        }
        let off: u32 = match &space.structures[this_i].table {
            Option::Some(t) => match t.get(name) {
                Option::Some(e) => e.offset,
                Option::None => {
                    proof {
                        assert(false);
                    }
                    0
                },
            },
            Option::None => {
                proof {
                    assert(false);
                }
                0
            },
        };
        let st = &mut space.structures[this_i];
        match &mut st.table {
            Option::Some(t) => {
                t.set(name, MapEntry { offset: off, attrs: attributes });
            },
            Option::None => {
                proof {
                    assert(false);
                }
            },
        }
        proof {
            let ss1 = old(space).structures@;
            let ss2 = space.structures@;
            let n1 = old(space).nodes@;
            let u = this_i as int;
            let props1 = props_at(ss1, u);
            let props2 = props_at(ss2, u);
            let dseq = holder_seq(n1, ss1[u].deleted);
            let slots = ss1[u].spec_slots_size();
            let entry = MapEntry { offset: props1[name].offset, attrs: attributes };
            assert(props2 == props1.insert(name, entry));
            assert forall|k: int|
                0 <= k < ss1.len() && k != u && (#[trigger] ss1[k]).table is None && ss1[k].previous
                    is Some implies ss1[k].previous.unwrap().raw != u by {
                assert(struct_wf(ss1, n1, k));
            }
            assert forall|j: int| j != u implies props_at(ss2, j) == props_at(ss1, j) by {
                lemma_props_update_isolated(ss1, ss2, u, j);
            }
            assert(ss2[u].spec_slots_size() == slots);
            assert(partition_ok(props2, dseq, slots)) by {
                assert forall|k: Symbol| #[trigger] props2.contains_key(k) implies props2[k].offset
                    < slots && !props2[k].attrs.spec_is_not_found() by {
                    assert(props1.contains_key(k));
                }
                assert forall|k1: Symbol, k2: Symbol|
                    #![trigger props2.contains_key(k1), props2.contains_key(k2)]
                    props2.contains_key(k1) && props2.contains_key(k2) && k1 != k2
                    implies props2[k1].offset != props2[k2].offset by {
                    assert(props1.contains_key(k1) && props1.contains_key(k2));
                }
                assert forall|k: Symbol, j: int|
                    #![trigger props2.contains_key(k), dseq[j]]
                    props2.contains_key(k) && 0 <= j < dseq.len() implies props2[k].offset
                    != dseq[j] by {
                    assert(props1.contains_key(k));
                }
                assert forall|o: int| 0 <= o < slots implies covered(props2, dseq, o) by {
                    assert(covered(props1, dseq, o));
                    if exists|k: Symbol| #[trigger] props1.contains_key(k) && props1[k].offset
                        == o {
                        let k = choose|k: Symbol| #[trigger]
                            props1.contains_key(k) && props1[k].offset == o;
                        assert(props2.contains_key(k) && props2[k].offset == o);
                    }
                }
            }
            assert forall|i: int| 0 <= i < ss2.len() implies #[trigger] struct_wf(
                ss2,
                space.nodes@,
                i,
            ) by {
                if i != u {
                    lemma_struct_wf_isolated(ss1, ss2, n1, space.nodes@, u, i);
                } else {
                    assert(ss1[u].transitions@ == Map::<TransitionKey, u32>::empty());
                    assert(struct_wf(ss2, space.nodes@, u));
                }
            }
        }
    }

    /// Derive a shared successor of a shared structure.
    pub fn new(space: &mut Space, previous: Gc<Structure>) -> (r: Gc<Structure>)
        requires
            old(space).wf(),
            old(space).valid(previous),
            old(space).structs().len() < u32::MAX,
            !old(space).at(previous).spec_is_unique(),
        ensures
            final(space).wf(),
            final(space).structs().len() == old(space).structs().len() + 1,
            r.raw == old(space).structs().len(),
            final(space).valid(r),
            final(space).nodes_seq() == old(space).nodes_seq(),
            forall|j: int|
                0 <= j < old(space).structs().len() ==> final(space).structs()[j] == old(
                    space,
                ).structs()[j],
            forall|j: int|
                0 <= j < old(space).structs().len() ==> final(space).props_at_idx(j) == old(
                    space,
                ).props_at_idx(j),
            final(space).props(r) == old(space).props(previous),
            !final(space).at(r).spec_is_unique(),
            final(space).at(r).spec_slots_size() == old(space).at(previous).spec_slots_size(),
            final(space).at(r).spec_deleted() == old(space).at(previous).spec_deleted(),
            final(space).at(r).spec_added().0 is Dummy,
            final(space).at(r).spec_previous() == Some(previous),
            final(space).at(r).spec_prototype() == old(space).at(previous).spec_prototype(),
            final(space).at(r).spec_is_indexed() == old(space).at(previous).spec_is_indexed(),
            !final(space).at(r).spec_unique_transition(),
            final(space).at(r).spec_transit_count() == 0,
            final(space).at(r).spec_transitions() == Map::<TransitionKey, u32>::empty(),
            final(space).at(r).spec_id() == 0,
            !final(space).at(r).spec_has_table(),
    {
        Self::ctor(space, previous, false)
    }

    /// Derive a unique successor. A unique parent without a table is
    /// materialised first, so that the derived structure receives a table
    /// copy of its own.
    pub fn new_unique(space: &mut Space, previous: Gc<Structure>) -> (r: Gc<Structure>)
        requires
            old(space).wf(),
            old(space).valid(previous),
            old(space).structs().len() < u32::MAX,
        ensures
            final(space).wf(),
            final(space).structs().len() == old(space).structs().len() + 1,
            r.raw == old(space).structs().len(),
            final(space).valid(r),
            final(space).nodes_seq() == old(space).nodes_seq(),
            forall|q: Gc<Structure>|
                old(space).valid(q) && q.raw != previous.raw ==> final(space).at(q) == old(
                    space,
                ).at(q),
            forall|j: int|
                0 <= j < old(space).structs().len() ==> final(space).props_at_idx(j) == old(
                    space,
                ).props_at_idx(j),
            final(space).props(r) == old(space).props(previous),
            final(space).at(r).spec_is_unique(),
            final(space).at(r).spec_slots_size() == old(space).at(previous).spec_slots_size(),
            final(space).at(r).spec_deleted() == old(space).at(previous).spec_deleted(),
            final(space).at(r).spec_added().0 is Dummy,
            final(space).at(r).spec_previous() == Some(previous),
            final(space).at(r).spec_prototype() == old(space).at(previous).spec_prototype(),
            final(space).at(r).spec_is_indexed() == old(space).at(previous).spec_is_indexed(),
            !final(space).at(r).spec_unique_transition(),
            final(space).at(r).spec_transit_count() == 0,
            final(space).at(r).spec_transitions() == Map::<TransitionKey, u32>::empty(),
            final(space).at(r).spec_id() == 0,
            final(space).at(r).spec_has_table() == old(space).at(previous).spec_is_unique(),
            final(space).at(r).spec_has_table() ==> final(space).at(r).spec_table_map() == old(
                space,
            ).props(previous),
            final(space).at(previous).spec_is_unique() == old(space).at(
                previous,
            ).spec_is_unique(),
            final(space).props(previous) == old(space).props(previous),
            final(space).at(previous).spec_slots_size() == old(space).at(
                previous,
            ).spec_slots_size(),
            final(space).at(previous).spec_deleted() == old(space).at(previous).spec_deleted(),
            final(space).at(previous).spec_unique_transition() == old(space).at(
                previous,
            ).spec_unique_transition(),
            final(space).at(previous).spec_transitions() == old(space).at(
                previous,
            ).spec_transitions(),
            final(space).at(previous).spec_prototype() == old(space).at(
                previous,
            ).spec_prototype(),
            final(space).at(previous).spec_id() == old(space).at(previous).spec_id(),
            final(space).at(previous).spec_added() == old(space).at(previous).spec_added(),
            final(space).at(previous).spec_transit_count() == old(space).at(
                previous,
            ).spec_transit_count(),
            final(space).at(previous).spec_is_indexed() == old(space).at(
                previous,
            ).spec_is_indexed(),
            (!old(space).at(previous).spec_is_unique() || old(space).at(
                previous,
            ).spec_has_table()) ==> final(space).at(previous) == old(space).at(previous),
            (old(space).at(previous).spec_is_unique() && !old(space).at(
                previous,
            ).spec_has_table()) ==> final(space).at(previous).spec_has_table() && final(space).at(
                previous,
            ).spec_previous() is None && final(space).at(previous).spec_table_map() == old(
                space,
            ).props(previous),
    {
        let prev_i = previous.raw as usize;
        proof {
            assert(struct_wf(space.structures@, space.nodes@, prev_i as int));
        }
        if space.structures[prev_i].is_unique() && !space.structures[prev_i].has_table() {
            Structure::allocate_table(space, previous);
        }
        Self::ctor(space, previous, true)
    }

    /// Fresh root: no parent, no table.
    fn ctor1(
        space: &mut Space,
        prototype: Option<Gc<JsObject>>,
        unique: bool,
        indexed: bool,
    ) -> (r: Gc<Structure>)
        requires
            old(space).wf(),
            old(space).structs().len() < u32::MAX,
        ensures
            final(space).wf(),
            final(space).structs().len() == old(space).structs().len() + 1,
            r.raw == old(space).structs().len(),
            final(space).valid(r),
            final(space).nodes_seq() == old(space).nodes_seq(),
            forall|j: int|
                0 <= j < old(space).structs().len() ==> final(space).structs()[j] == old(
                    space,
                ).structs()[j],
            forall|j: int|
                0 <= j < old(space).structs().len() ==> final(space).props_at_idx(j) == old(
                    space,
                ).props_at_idx(j),
            final(space).props(r) == Map::<Symbol, MapEntry>::empty(),
            final(space).at(r).spec_is_unique() == unique,
            final(space).at(r).spec_is_indexed() == indexed,
            final(space).at(r).spec_slots_size() == 0,
            final(space).at(r).spec_deleted().size == 0,
            final(space).at(r).spec_added().0 is Dummy,
            final(space).at(r).spec_previous() is None,
            final(space).at(r).spec_prototype() == prototype,
            !final(space).at(r).spec_unique_transition(),
            final(space).at(r).spec_transit_count() == 0,
            final(space).at(r).spec_transitions() == Map::<TransitionKey, u32>::empty(),
            final(space).at(r).spec_id() == 0,
            !final(space).at(r).spec_has_table(),
    {
        let new_raw: u32 = space.structures.len() as u32;
        let st = Structure {
            id: 0,
            transitions: TransitionsTable::new(!unique, indexed),
            table: None,
            deleted: DeletedEntryHolder::new(),
            added: (Symbol::Dummy, MapEntry::not_found()),
            previous: None,
            prototype,
            calculated_size: 0,
            transit_count: 0,
        };
        space.structures.push(st);
        let r = Gc::from_handle(new_raw);
        proof {
            let ss1 = old(space).structures@;
            let ss2 = space.structures@;
            let nodes = space.nodes@;
            let n = ss1.len() as int;
            assert forall|j: int| 0 <= j < n implies props_at(ss2, j) == props_at(ss1, j) by {
                lemma_props_grow(ss1, ss2, j);
            }
            assert forall|i: int| 0 <= i < ss2.len() implies #[trigger] struct_wf(
                ss2,
                nodes,
                i,
            ) by {
                if i < n {
                    lemma_struct_wf_grow(ss1, ss2, nodes, nodes, i);
                } else {
                    assert(holder_seq(nodes, ss2[i].deleted) == Seq::<u32>::empty());
                    assert(props_at(ss2, i) =~= Map::<Symbol, MapEntry>::empty());
                }
            }
        }
        r
    }

    /// Fresh root whose table is given verbatim.
    fn ctor2(
        space: &mut Space,
        table: Option<PropTable>,
        prototype: Option<Gc<JsObject>>,
        unique: bool,
        indexed: bool,
    ) -> (r: Gc<Structure>)
        requires
            old(space).wf(),
            old(space).structs().len() < u32::MAX,
            match table {
                Option::Some(t) => t.wf() && t.spec_len() <= u32::MAX && partition_ok(
                    t@,
                    Seq::<u32>::empty(),
                    t.spec_len() as int,
                ),
                Option::None => true,
            },
        ensures
            final(space).wf(),
            final(space).structs().len() == old(space).structs().len() + 1,
            r.raw == old(space).structs().len(),
            final(space).valid(r),
            final(space).nodes_seq() == old(space).nodes_seq(),
            forall|j: int|
                0 <= j < old(space).structs().len() ==> final(space).structs()[j] == old(
                    space,
                ).structs()[j],
            forall|j: int|
                0 <= j < old(space).structs().len() ==> final(space).props_at_idx(j) == old(
                    space,
                ).props_at_idx(j),
            final(space).props(r) == match table {
                Option::Some(t) => t@,
                Option::None => Map::<Symbol, MapEntry>::empty(),
            },
            final(space).at(r).spec_is_unique() == unique,
            final(space).at(r).spec_is_indexed() == indexed,
            final(space).at(r).spec_slots_size() == match table {
                Option::Some(t) => t.spec_len() as int,
                Option::None => 0,
            },
            final(space).at(r).spec_deleted().size == 0,
            final(space).at(r).spec_added().0 is Dummy,
            final(space).at(r).spec_previous() is None,
            final(space).at(r).spec_prototype() == prototype,
            !final(space).at(r).spec_unique_transition(),
            final(space).at(r).spec_transit_count() == 0,
            final(space).at(r).spec_transitions() == Map::<TransitionKey, u32>::empty(),
            final(space).at(r).spec_id() == 0,
            final(space).at(r).spec_has_table() == (table is Some),
    {
        let new_raw: u32 = space.structures.len() as u32;
        let calculated: u32 = match &table {
            Option::Some(t) => t.len() as u32,
            Option::None => 0,
        };
        let st = Structure {
            id: 0,
            transitions: TransitionsTable::new(!unique, indexed),
            table,
            deleted: DeletedEntryHolder::new(),
            added: (Symbol::Dummy, MapEntry::not_found()),
            previous: None,
            prototype,
            calculated_size: calculated,
            transit_count: 0,
        };
        space.structures.push(st);
        let r = Gc::from_handle(new_raw);
        proof {
            let ss1 = old(space).structures@;
            let ss2 = space.structures@;
            let nodes = space.nodes@;
            let n = ss1.len() as int;
            assert forall|j: int| 0 <= j < n implies props_at(ss2, j) == props_at(ss1, j) by {
                lemma_props_grow(ss1, ss2, j);
            }
            assert forall|i: int| 0 <= i < ss2.len() implies #[trigger] struct_wf(
                ss2,
                nodes,
                i,
            ) by {
                if i < n {
                    lemma_struct_wf_grow(ss1, ss2, nodes, nodes, i);
                } else {
                    assert(holder_seq(nodes, ss2[i].deleted) =~= Seq::<u32>::empty());
                }
            }
        }
        r
    }

    /// Fresh shared, non-indexed root whose table holds the given pairs.
    pub fn new_(space: &mut Space, it: &Vec<(Symbol, MapEntry)>) -> (r: Gc<Structure>)
        requires
            old(space).wf(),
            old(space).structs().len() < u32::MAX,
            it@.len() <= u32::MAX,
            crate::table::distinct_names(it@),
            partition_ok(crate::table::map_of(it@), Seq::<u32>::empty(), it@.len() as int),
        ensures
            final(space).wf(),
            final(space).structs().len() == old(space).structs().len() + 1,
            r.raw == old(space).structs().len(),
            final(space).valid(r),
            final(space).nodes_seq() == old(space).nodes_seq(),
            forall|j: int|
                0 <= j < old(space).structs().len() ==> final(space).props_at_idx(j) == old(
                    space,
                ).props_at_idx(j),
            final(space).props(r) == crate::table::map_of(it@),
            !final(space).at(r).spec_is_unique(),
            !final(space).at(r).spec_is_indexed(),
            final(space).at(r).spec_slots_size() == it@.len(),
            final(space).at(r).spec_previous() is None,
            final(space).at(r).spec_prototype() is None,
            final(space).at(r).spec_has_table(),
            final(space).at(r).spec_id() == 0,
            final(space).at(r).spec_deleted().size == 0,
    {
        let n = it.len();
        let mut t = PropTable::new();
        let mut i: usize = 0;
        while i < n
            invariant
                n == it@.len(),
                0 <= i <= n,
                crate::table::distinct_names(it@),
                t.wf(),
                t@ == crate::table::map_of(it@.subrange(0, i as int)),
                t.spec_len() == i,
            decreases n - i,
        {
            let (nm, ent) = it[i];
            proof {
                crate::table::lemma_map_of_contains(it@.subrange(0, i as int), nm);
                assert(forall|j: int|
                    0 <= j < i ==> (#[trigger] it@.subrange(0, i as int)[j]) == it@[j]);
                assert(!t@.contains_key(nm));
                assert(it@.subrange(0, i + 1 as int).drop_last() =~= it@.subrange(0, i as int));
                assert(it@.subrange(0, i + 1 as int).last() == it@[i as int]);
            }
            t.set(nm, ent);
            i = i + 1;
        }
        proof {
            assert(it@.subrange(0, n as int) =~= it@);
        }
        Self::ctor2(space, Some(t), None, false, false)
    }

    /// Fresh unique root without a table.
    pub fn new_unique_with_proto(
        space: &mut Space,
        proto: Option<Gc<JsObject>>,
        indexed: bool,
    ) -> (r: Gc<Structure>)
        requires
            old(space).wf(),
            old(space).structs().len() < u32::MAX,
        ensures
            final(space).wf(),
            final(space).structs().len() == old(space).structs().len() + 1,
            r.raw == old(space).structs().len(),
            final(space).valid(r),
            final(space).nodes_seq() == old(space).nodes_seq(),
            forall|j: int|
                0 <= j < old(space).structs().len() ==> final(space).props_at_idx(j) == old(
                    space,
                ).props_at_idx(j),
            forall|j: int|
                0 <= j < old(space).structs().len() ==> final(space).structs()[j] == old(
                    space,
                ).structs()[j],
            final(space).props(r) == Map::<Symbol, MapEntry>::empty(),
            final(space).at(r).spec_is_unique(),
            final(space).at(r).spec_is_indexed() == indexed,
            final(space).at(r).spec_slots_size() == 0,
            final(space).at(r).spec_prototype() == proto,
            !final(space).at(r).spec_has_table(),
            final(space).at(r).spec_previous() is None,
            final(space).at(r).spec_id() == 0,
    {
        Self::ctor2(space, None, proto, true, indexed)
    }

    /// Fresh root from an optional verbatim table.
    pub fn new_from_table(
        space: &mut Space,
        table: Option<PropTable>,
        prototype: Option<Gc<JsObject>>,
        unique: bool,
        indexed: bool,
    ) -> (r: Gc<Structure>)
        requires
            old(space).wf(),
            old(space).structs().len() < u32::MAX,
            match table {
                Option::Some(t) => t.wf() && t.spec_len() <= u32::MAX && partition_ok(
                    t@,
                    Seq::<u32>::empty(),
                    t.spec_len() as int,
                ),
                Option::None => true,
            },
        ensures
            final(space).wf(),
            final(space).structs().len() == old(space).structs().len() + 1,
            r.raw == old(space).structs().len(),
            final(space).valid(r),
            final(space).nodes_seq() == old(space).nodes_seq(),
            forall|j: int|
                0 <= j < old(space).structs().len() ==> final(space).props_at_idx(j) == old(
                    space,
                ).props_at_idx(j),
            forall|j: int|
                0 <= j < old(space).structs().len() ==> final(space).structs()[j] == old(
                    space,
                ).structs()[j],
            final(space).props(r) == match table {
                Option::Some(t) => t@,
                Option::None => Map::<Symbol, MapEntry>::empty(),
            },
            final(space).at(r).spec_is_unique() == unique,
            final(space).at(r).spec_is_indexed() == indexed,
            final(space).at(r).spec_slots_size() == match table {
                Option::Some(t) => t.spec_len() as int,
                Option::None => 0,
            },
            final(space).at(r).spec_prototype() == prototype,
            final(space).at(r).spec_has_table() == (table is Some),
            final(space).at(r).spec_previous() is None,
            final(space).at(r).spec_id() == 0,
            final(space).at(r).spec_deleted().size == 0,
    {
        Self::ctor2(space, table, prototype, unique, indexed)
    }

    /// Fresh shared root.
    pub fn new_indexed(
        space: &mut Space,
        prototype: Option<Gc<JsObject>>,
        indexed: bool,
    ) -> (r: Gc<Structure>)
        requires
            old(space).wf(),
            old(space).structs().len() < u32::MAX,
        ensures
            final(space).wf(),
            final(space).structs().len() == old(space).structs().len() + 1,
            r.raw == old(space).structs().len(),
            final(space).valid(r),
            final(space).nodes_seq() == old(space).nodes_seq(),
            forall|j: int|
                0 <= j < old(space).structs().len() ==> final(space).props_at_idx(j) == old(
                    space,
                ).props_at_idx(j),
            forall|j: int|
                0 <= j < old(space).structs().len() ==> final(space).structs()[j] == old(
                    space,
                ).structs()[j],
            final(space).props(r) == Map::<Symbol, MapEntry>::empty(),
            !final(space).at(r).spec_is_unique(),
            final(space).at(r).spec_is_indexed() == indexed,
            final(space).at(r).spec_slots_size() == 0,
            final(space).at(r).spec_prototype() == prototype,
            !final(space).at(r).spec_has_table(),
            final(space).at(r).spec_previous() is None,
            final(space).at(r).spec_transit_count() == 0,
            final(space).at(r).spec_transitions() == Map::<TransitionKey, u32>::empty(),
            final(space).at(r).spec_deleted().size == 0,
            final(space).at(r).spec_id() == 0,
    {
        Self::ctor1(space, prototype, false, indexed)
    }

    /// Fresh unique root.
    pub fn new_unique_indexed(
        space: &mut Space,
        prototype: Option<Gc<JsObject>>,
        indexed: bool,
    ) -> (r: Gc<Structure>)
        requires
            old(space).wf(),
            old(space).structs().len() < u32::MAX,
        ensures
            final(space).wf(),
            final(space).structs().len() == old(space).structs().len() + 1,
            r.raw == old(space).structs().len(),
            final(space).valid(r),
            final(space).nodes_seq() == old(space).nodes_seq(),
            forall|j: int|
                0 <= j < old(space).structs().len() ==> final(space).props_at_idx(j) == old(
                    space,
                ).props_at_idx(j),
            forall|j: int|
                0 <= j < old(space).structs().len() ==> final(space).structs()[j] == old(
                    space,
                ).structs()[j],
            final(space).props(r) == Map::<Symbol, MapEntry>::empty(),
            final(space).at(r).spec_is_unique(),
            final(space).at(r).spec_is_indexed() == indexed,
            final(space).at(r).spec_slots_size() == 0,
            final(space).at(r).spec_prototype() == prototype,
            !final(space).at(r).spec_has_table(),
            final(space).at(r).spec_previous() is None,
            final(space).at(r).spec_id() == 0,
    {
        Self::ctor1(space, prototype, true, indexed)
    }

    /// A structure to branch an object off from: unique structures are
    /// forked, shared ones are reused as they stand.
    pub fn new_from_point(space: &mut Space, map: Gc<Structure>) -> (r: Gc<Structure>)
        requires
            old(space).wf(),
            old(space).valid(map),
            old(space).structs().len() < u32::MAX,
        ensures
            final(space).wf(),
            final(space).valid(r),
            final(space).nodes_seq() == old(space).nodes_seq(),
            forall|j: int|
                0 <= j < old(space).structs().len() ==> final(space).props_at_idx(j) == old(
                    space,
                ).props_at_idx(j),
            final(space).props(r) == old(space).props(map),
            final(space).at(r).spec_is_unique() == old(space).at(map).spec_is_unique(),
            !old(space).at(map).spec_is_unique() ==> r == map && *final(space) == *old(space),
            final(space).structs().len() == old(space).structs().len() + (if old(space).at(
                map,
            ).spec_is_unique() {
                1int
            } else {
                0int
            }),
            old(space).at(map).spec_is_unique() ==> r.raw == old(space).structs().len() && final(space).at(r).spec_previous() == Some(map) && final(space).at(r).spec_deleted() == old(
                space,
            ).at(map).spec_deleted() && final(space).at(r).spec_added().0 is Dummy && !final(space).at(r).spec_unique_transition() && final(space).at(r).spec_prototype() == old(
                space,
            ).at(map).spec_prototype() && final(space).at(r).spec_is_indexed() == old(space).at(
                map,
            ).spec_is_indexed() && final(space).at(r).spec_id() == 0 && final(space).at(
                r,
            ).spec_slots_size() == old(space).at(map).spec_slots_size() && final(space).at(
                r,
            ).spec_has_table() && final(space).at(r).spec_transitions() == Map::<
                TransitionKey,
                u32,
            >::empty(),
    {
        let map_i = map.raw as usize;
        if space.structures[map_i].is_unique() {
            return Self::new_unique(space, map);
        }
        map
    }

    /// The unique-mode add: materialise the table if needed, fork when this
    /// unique structure has already been forked once, recycle a deleted slot
    /// offset when one is available, and write the entry into the table.
    fn add_to_unique(
        space: &mut Space,
        this: Gc<Structure>,
        name: Symbol,
        attributes: AttrSafe,
    ) -> (r: (Gc<Structure>, u32))
        requires
            old(space).wf(),
            old(space).valid(this),
            old(space).at(this).spec_is_unique(),
            !(name is Dummy),
            !old(space).props(this).contains_key(name),
            !attributes.spec_is_not_found(),
            old(space).at(this).spec_slots_size() < u32::MAX,
            old(space).at(this).spec_unique_transition() ==> old(space).structs().len()
                < u32::MAX,
        ensures
            final(space).wf(),
            final(space).valid(r.0),
            final(space).nodes_seq() == old(space).nodes_seq(),
            final(space).props(r.0) == old(space).props(this).insert(
                name,
                MapEntry { offset: r.1, attrs: attributes },
            ),
            final(space).at(r.0).spec_is_unique(),
            !final(space).at(r.0).spec_unique_transition(),
            final(space).at(r.0).spec_has_table(),
            r.1 == (if old(space).at(this).spec_deleted().size > 0 {
                holder_seq(old(space).nodes_seq(), old(space).at(this).spec_deleted())[0] as int
            } else {
                old(space).at(this).spec_slots_size()
            }),
            final(space).at(r.0).spec_slots_size() == old(space).at(this).spec_slots_size() + (
            if old(space).at(this).spec_deleted().size > 0 {
                0int
            } else {
                1int
            }),
            final(space).at(r.0).spec_deleted().size == (if old(space).at(
                this,
            ).spec_deleted().size > 0 {
                old(space).at(this).spec_deleted().size - 1
            } else {
                0int
            }),
            old(space).at(this).spec_unique_transition() ==> r.0.raw == old(space).structs().len()
                && final(space).structs().len() == old(space).structs().len() + 1,
            !old(space).at(this).spec_unique_transition() ==> r.0 == this && final(space).structs().len() == old(space).structs().len(),
            forall|q: Gc<Structure>|
                old(space).valid(q) && q.raw != this.raw && q.raw != r.0.raw ==> final(space).at(
                    q,
                ) == old(space).at(q),
            forall|j: int|
                0 <= j < old(space).structs().len() && j != r.0.raw ==> final(space).props_at_idx(
                    j,
                ) == old(space).props_at_idx(j),
            final(space).at(r.0).spec_prototype() == old(space).at(this).spec_prototype(),
            final(space).at(r.0).spec_is_indexed() == old(space).at(this).spec_is_indexed(),
            final(space).at(r.0).spec_transitions() == Map::<TransitionKey, u32>::empty(),
            final(space).at(r.0).spec_added().0 is Dummy,
            old(space).at(this).spec_unique_transition() ==> final(space).at(r.0).spec_id() == 0,
            !old(space).at(this).spec_unique_transition() ==> final(space).at(r.0).spec_id()
                == old(space).at(this).spec_id(),
            final(space).at(this).spec_prototype() == old(space).at(this).spec_prototype(),
            final(space).at(this).spec_id() == old(space).at(this).spec_id(),
            final(space).at(this).spec_is_indexed() == old(space).at(this).spec_is_indexed(),
            final(space).at(this).spec_is_unique() == old(space).at(this).spec_is_unique(),
            final(space).at(this).spec_unique_transition() == old(space).at(
                this,
            ).spec_unique_transition(),
            final(space).at(this).spec_added() == old(space).at(this).spec_added(),
            final(space).at(this).spec_transit_count() == old(space).at(
                this,
            ).spec_transit_count(),
            final(space).at(this).spec_transitions() == old(space).at(this).spec_transitions(),
            final(space).at(this).spec_has_table(),
            old(space).at(this).spec_unique_transition() ==> final(space).at(this).spec_deleted()
                == old(space).at(this).spec_deleted() && final(space).at(this).spec_slots_size()
                == old(space).at(this).spec_slots_size(),
    {
        let this_i = this.raw as usize;
        proof {
            assert(struct_wf(space.structures@, space.nodes@, this_i as int));
        }
        if !space.structures[this_i].has_table() {
            Structure::allocate_table(space, this);
        }
        let m: Gc<Structure> = if space.structures[this_i].transitions.is_enabled_unique_transition(
        ) {
            Structure::new_unique(space, this)
        } else {
            this
        };
        let ghost mid = *space;
        let m_i = m.raw as usize;
        proof {
            assert(mid.wf());
            assert(struct_wf(mid.structures@, mid.nodes@, m_i as int));
            assert(mid.props(m) == old(space).props(this));
            assert(mid.at(m).spec_deleted() == old(space).at(this).spec_deleted());
        }
        let mut holder = space.structures[m_i].deleted;
        let offset: u32;
        if !holder.empty() {
            offset = holder.pop(&space.nodes);
        } else {
            offset = space.structures[this_i].get_slots_size() as u32;
        }
        let st = &mut space.structures[m_i];
        st.deleted = holder;
        match &mut st.table {
            Option::Some(t) => {
                t.set(name, MapEntry { offset, attrs: attributes });
            },
            Option::None => {
                proof {
                    assert(false);
                }
            },
        }
        proof {
            let ss1 = mid.structures@;
            let ss2 = space.structures@;
            let nodes = mid.nodes@;
            let u = m_i as int;
            let props1 = props_at(ss1, u);
            let props2 = props_at(ss2, u);
            let dseq1 = holder_seq(nodes, ss1[u].deleted);
            let dseq2 = holder_seq(nodes, ss2[u].deleted);
            let slots1 = ss1[u].spec_slots_size();
            let slots2 = ss2[u].spec_slots_size();
            let entry = MapEntry { offset, attrs: attributes };
            assert(props2 == props1.insert(name, entry));
            assert forall|k: int|
                0 <= k < ss1.len() && k != u && (#[trigger] ss1[k]).table is None && ss1[k].previous
                    is Some implies ss1[k].previous.unwrap().raw != u by {
                assert(struct_wf(ss1, nodes, k));
            }
            assert forall|j: int| j != u implies props_at(ss2, j) == props_at(ss1, j) by {
                lemma_props_update_isolated(ss1, ss2, u, j);
            }
            if dseq1.len() > 0 {
                assert(offset == dseq1[0]);
                assert(dseq2 =~= dseq1.subrange(1, dseq1.len() as int));
                assert(slots2 == slots1);
            } else {
                assert(dseq1 =~= Seq::<u32>::empty());
                assert(offset == slots1);
                assert(dseq2 =~= dseq1);
                assert(slots2 == slots1 + 1);
            }
            lemma_partition_insert(
                props1,
                props2,
                dseq1,
                dseq2,
                slots1,
                slots2,
                name,
                offset,
                attributes,
            );
            assert forall|i: int| 0 <= i < ss2.len() implies #[trigger] struct_wf(
                ss2,
                nodes,
                i,
            ) by {
                if i != u {
                    lemma_struct_wf_isolated(ss1, ss2, nodes, nodes, u, i);
                } else {
                    assert(ss1[u].transitions@ == Map::<TransitionKey, u32>::empty());
                    assert(struct_wf(ss2, nodes, u));
                }
            }
        }
        (m, offset)
    }

    /// Materialise the table unless the structure is a pristine root, which
    /// the caller treats as an empty map.
    pub fn allocate_table_if_needed(space: &mut Space, this: Gc<Structure>) -> (r: bool)
        requires
            old(space).wf(),
            old(space).valid(this),
        ensures
            final(space).wf(),
            final(space).structs().len() == old(space).structs().len(),
            final(space).nodes_seq() == old(space).nodes_seq(),
            forall|j: int|
                0 <= j < old(space).structs().len() ==> final(space).props_at_idx(j) == old(
                    space,
                ).props_at_idx(j),
            forall|q: Gc<Structure>|
                old(space).valid(q) && q.raw != this.raw ==> final(space).at(q) == old(space).at(
                    q,
                ),
            r == !(!old(space).at(this).spec_has_table() && old(space).at(
                this,
            ).spec_previous() is None),
            r ==> final(space).at(this).spec_has_table() && final(space).at(this).spec_table_map()
                == old(space).props(this),
            !r ==> *final(space) == *old(space) && old(space).props(this) == Map::<
                Symbol,
                MapEntry,
            >::empty(),
            old(space).at(this).spec_has_table() ==> *final(space) == *old(space),
            final(space).at(this).spec_slots_size() == old(space).at(this).spec_slots_size(),
            final(space).at(this).spec_is_unique() == old(space).at(this).spec_is_unique(),
            final(space).at(this).spec_deleted() == old(space).at(this).spec_deleted(),
            final(space).at(this).spec_unique_transition() == old(space).at(
                this,
            ).spec_unique_transition(),
    {
        let this_i = this.raw as usize;
        proof {
            assert(struct_wf(space.structures@, space.nodes@, this_i as int));
        }
        if !space.structures[this_i].has_table() {
            if space.structures[this_i].previous.is_none() {
                return false;
            }
            Structure::allocate_table(space, this);
        }
        true
    }
}

impl Gc<Structure> {
    /// Add a property: on a unique structure the entry is written in place
    /// (or into a fork when the structure was already forked); on a shared
    /// structure a cached successor is reused when one exists, a fresh
    /// shared successor is cached otherwise, and past the transition-count
    /// cap the add escapes to a unique successor. Returns the successor and
    /// the slot offset chosen for the new property.
    pub fn add_property_transition(
        self,
        space: &mut Space,
        name: Symbol,
        attributes: AttrSafe,
    ) -> (r: (Gc<Structure>, u32))
        requires
            old(space).wf(),
            old(space).valid(self),
            !(name is Dummy),
            !old(space).props(self).contains_key(name),
            !attributes.spec_is_not_found(),
            old(space).at(self).spec_slots_size() < u32::MAX,
            old(space).structs().len() < u32::MAX,
        ensures
            final(space).wf(),
            final(space).valid(r.0),
            final(space).nodes_seq() == old(space).nodes_seq(),
            final(space).props(r.0) == old(space).props(self).insert(
                name,
                MapEntry { offset: r.1, attrs: attributes },
            ),
            forall|q: Gc<Structure>|
                old(space).valid(q) && q.raw != self.raw && q.raw != r.0.raw ==> final(space).at(
                    q,
                ) == old(space).at(q),
            forall|j: int|
                0 <= j < old(space).structs().len() && j != r.0.raw ==> final(space).props_at_idx(
                    j,
                ) == old(space).props_at_idx(j),
            final(space).at(r.0).spec_is_unique() == (old(space).at(self).spec_is_unique() || (
            !old(space).at(self).spec_transitions().contains_key(
                TransitionKey { name, attrs: attributes.raw },
            ) && old(space).at(self).spec_transit_count() >= 32)),
            (!old(space).at(self).spec_is_unique() && old(space).at(
                self,
            ).spec_transitions().contains_key(TransitionKey { name, attrs: attributes.raw }))
                ==> *final(space) == *old(space) && r.0.raw == old(space).at(
                self,
            ).spec_transitions()[TransitionKey { name, attrs: attributes.raw }] && r.1 == final(space).at(r.0).spec_added().1.offset,
            (old(space).at(self).spec_is_unique() || !old(space).at(
                self,
            ).spec_transitions().contains_key(TransitionKey { name, attrs: attributes.raw })) ==> (
            r.1 == (if old(space).at(self).spec_deleted().size > 0 {
                holder_seq(old(space).nodes_seq(), old(space).at(self).spec_deleted())[0] as int
            } else {
                old(space).at(self).spec_slots_size()
            }) && final(space).at(r.0).spec_slots_size() == old(space).at(self).spec_slots_size()
                + (if old(space).at(self).spec_deleted().size > 0 {
                0int
            } else {
                1int
            })),
            (!old(space).at(self).spec_is_unique() && !old(space).at(
                self,
            ).spec_transitions().contains_key(TransitionKey { name, attrs: attributes.raw })
                && old(space).at(self).spec_transit_count() < 32) ==> r.0.raw == old(
                space,
            ).structs().len() && final(space).at(r.0).spec_added() == (
                name,
                MapEntry { offset: r.1, attrs: attributes },
            ) && final(space).at(self).spec_transitions() == old(space).at(
                self,
            ).spec_transitions().insert(TransitionKey { name, attrs: attributes.raw }, r.0.raw)
                && final(space).at(r.0).spec_transit_count() == old(space).at(
                self,
            ).spec_transit_count() + 1 && final(space).at(r.0).spec_previous() == Some(self),
            (old(space).at(self).spec_is_unique() && !old(space).at(
                self,
            ).spec_unique_transition()) ==> r.0 == self,
            old(space).at(self).spec_is_unique() ==> final(space).at(r.0).spec_has_table(),
            final(space).at(self).spec_prototype() == old(space).at(self).spec_prototype(),
            final(space).at(self).spec_id() == old(space).at(self).spec_id(),
            final(space).at(self).spec_is_indexed() == old(space).at(self).spec_is_indexed(),
            final(space).at(self).spec_is_unique() == old(space).at(self).spec_is_unique(),
            final(space).at(self).spec_unique_transition() == old(space).at(
                self,
            ).spec_unique_transition(),
            final(space).at(self).spec_added() == old(space).at(self).spec_added(),
            final(space).at(self).spec_transit_count() == old(space).at(
                self,
            ).spec_transit_count(),
            old(space).at(self).spec_is_unique() ==> final(space).at(self).spec_transitions()
                == old(space).at(self).spec_transitions(),
            !old(space).at(self).spec_is_unique() ==> final(space).at(self).spec_has_table()
                == old(space).at(self).spec_has_table(),
            !(old(space).at(self).spec_is_unique() && !old(space).at(
                self,
            ).spec_unique_transition()) ==> final(space).at(self).spec_deleted() == old(space).at(
                self,
            ).spec_deleted() && final(space).at(self).spec_slots_size() == old(space).at(
                self,
            ).spec_slots_size(),
            (!old(space).at(self).spec_is_unique() && !old(space).at(
                self,
            ).spec_transitions().contains_key(TransitionKey { name, attrs: attributes.raw })
                && old(space).at(self).spec_transit_count() >= 32) ==> final(space).at(self)
                == old(space).at(self),
            (old(space).at(self).spec_is_unique() && !old(space).at(
                self,
            ).spec_unique_transition()) ==> final(space).structs().len() == old(
                space,
            ).structs().len(),
            ((old(space).at(self).spec_is_unique() && old(space).at(
                self,
            ).spec_unique_transition()) || (!old(space).at(self).spec_is_unique() && !old(
                space,
            ).at(self).spec_transitions().contains_key(
                TransitionKey { name, attrs: attributes.raw },
            ))) ==> r.0.raw == old(space).structs().len() && final(space).structs().len() == old(
                space,
            ).structs().len() + 1,
            (old(space).at(self).spec_is_unique() || !old(space).at(
                self,
            ).spec_transitions().contains_key(TransitionKey { name, attrs: attributes.raw }))
                ==> !final(space).at(r.0).spec_unique_transition() && final(space).at(
                r.0,
            ).spec_prototype() == old(space).at(self).spec_prototype() && final(space).at(
                r.0,
            ).spec_is_indexed() == old(space).at(self).spec_is_indexed() && final(space).at(
                r.0,
            ).spec_deleted().size == (if old(space).at(self).spec_deleted().size > 0 {
                old(space).at(self).spec_deleted().size - 1
            } else {
                0int
            }),
            ((old(space).at(self).spec_is_unique() && old(space).at(
                self,
            ).spec_unique_transition()) || (!old(space).at(self).spec_is_unique() && !old(
                space,
            ).at(self).spec_transitions().contains_key(
                TransitionKey { name, attrs: attributes.raw },
            ))) ==> final(space).at(r.0).spec_id() == 0,
            (!old(space).at(self).spec_is_unique() && !old(space).at(
                self,
            ).spec_transitions().contains_key(TransitionKey { name, attrs: attributes.raw })
                && old(space).at(self).spec_transit_count() < 32) ==> final(space).at(
                r.0,
            ).spec_transitions() == Map::<TransitionKey, u32>::empty() && !final(space).at(
                r.0,
            ).spec_has_table(),
            (!old(space).at(self).spec_is_unique() && !old(space).at(
                self,
            ).spec_transitions().contains_key(TransitionKey { name, attrs: attributes.raw })
                && old(space).at(self).spec_transit_count() >= 32) ==> final(space).at(
                r.0,
            ).spec_has_table() && final(space).at(r.0).spec_transitions() == Map::<
                TransitionKey,
                u32,
            >::empty() && final(space).at(r.0).spec_added().0 is Dummy,
    {
        let this_i = self.raw as usize;
        proof {
            assert(struct_wf(space.structures@, space.nodes@, this_i as int));
        }
        if space.structures[this_i].is_unique() {
            return Structure::add_to_unique(space, self, name, attributes);
        }
        let found = space.structures[this_i].transitions.find(name, attributes);
        match found {
            Option::Some(c) => {
                proof {
                    let k = TransitionKey { name, attrs: attributes.raw };
                    assert(space.structures@[this_i as int].transitions@.contains_key(k));
                    assert(trans_cache_ok(space.structures@, this_i as int, k));
                }
                let cref = Gc::<Structure>::from_handle(c);
                let off = space.structures[c as usize].added.1.offset;
                proof {
                    let cst = space.structures@[c as int];
                    assert(cst.added.1.attrs == attributes);
                    assert(cst.added.1 == MapEntry { offset: off, attrs: attributes });
                }
                return (cref, off);
            },
            Option::None => {},
        }
        if space.structures[this_i].transit_count >= 32 {
            let m = Structure::new_unique(space, self);
            let rr = Structure::add_to_unique(space, m, name, attributes);
            return rr;
        }
        let self_count = space.structures[this_i].transit_count;
        let m = Structure::new(space, self);
        let ghost mid = *space;
        let m_i = m.raw as usize;
        proof {
            assert(mid.wf());
            assert(struct_wf(mid.structures@, mid.nodes@, m_i as int));
        }
        let mut holder = space.structures[m_i].deleted;
        let self_slots = space.structures[this_i].get_slots_size();
        let offset: u32;
        let new_calc: u32;
        if !holder.empty() {
            offset = holder.pop(&space.nodes);
            new_calc = self_slots as u32;
        } else {
            offset = self_slots as u32;
            new_calc = (self_slots + 1) as u32;
        }
        let st = &mut space.structures[m_i];
        st.deleted = holder;
        st.added = (name, MapEntry { offset, attrs: attributes });
        st.calculated_size = new_calc;
        st.transit_count = self_count + 1;
        proof {
            let ss1 = mid.structures@;
            let ss2 = space.structures@;
            let nodes = mid.nodes@;
            let u = m_i as int;
            let props1 = props_at(ss1, u);
            let props2 = props_at(ss2, u);
            let dseq1 = holder_seq(nodes, ss1[u].deleted);
            let dseq2 = holder_seq(nodes, ss2[u].deleted);
            let slots1 = ss1[u].spec_slots_size();
            let slots2 = ss2[u].spec_slots_size();
            assert forall|k: int|
                0 <= k < ss1.len() && k != u && (#[trigger] ss1[k]).table is None && ss1[k].previous
                    is Some implies ss1[k].previous.unwrap().raw != u by {
                assert(struct_wf(ss1, nodes, k));
            }
            assert forall|j: int| j != u implies props_at(ss2, j) == props_at(ss1, j) by {
                lemma_props_update_isolated(ss1, ss2, u, j);
            }
            assert(props_at(ss2, this_i as int) == props_at(ss1, this_i as int));
            assert(props1 == props_at(ss1, this_i as int));
            assert(props2 == props_at(ss2, this_i as int).insert(
                name,
                MapEntry { offset, attrs: attributes },
            ));
            if dseq1.len() > 0 {
                assert(offset == dseq1[0]);
                assert(dseq2 =~= dseq1.subrange(1, dseq1.len() as int));
                assert(slots2 == slots1);
            } else {
                assert(dseq1 =~= Seq::<u32>::empty());
                assert(offset == slots1);
                assert(dseq2 =~= dseq1);
                assert(slots2 == slots1 + 1);
            }
            lemma_partition_insert(
                props1,
                props2,
                dseq1,
                dseq2,
                slots1,
                slots2,
                name,
                offset,
                attributes,
            );
            assert forall|i: int| 0 <= i < ss2.len() implies #[trigger] struct_wf(
                ss2,
                nodes,
                i,
            ) by {
                if i != u {
                    lemma_struct_wf_isolated(ss1, ss2, nodes, nodes, u, i);
                } else {
                    assert(struct_wf(ss2, nodes, u));
                }
            }
        }
        let ghost mid2 = *space;
        let st2 = &mut space.structures[this_i];
        st2.transitions.insert(name, attributes, m.raw);
        proof {
            let ss1 = mid2.structures@;
            let ss2 = space.structures@;
            let nodes = mid2.nodes@;
            let u = this_i as int;
            let key = TransitionKey { name, attrs: attributes.raw };
            assert forall|j: int| true implies props_at(ss2, j) == props_at(ss1, j) by {
                lemma_props_update_same_denote(ss1, ss2, u, j);
            }
            assert(trans_cache_ok(ss2, u, key)) by {
                let c = m.raw as int;
                assert(ss2[u].transitions@[key] == m.raw);
                assert(u < c < ss2.len());
                assert(!ss2[c].spec_is_unique());
                assert(ss2[c].added.0 == name);
                assert(ss2[c].added.1.attrs.raw == attributes.raw);
                assert(props_at(ss2, c) == props_at(ss2, u).insert(name, ss2[c].added.1));
                let props_self = props_at(ss2, u);
                let dseq_self = holder_seq(old(space).nodes@, old(space).structures@[u].deleted);
                assert(partition_ok(
                    props_self,
                    dseq_self,
                    old(space).structures@[u].spec_slots_size(),
                )) by {
                    assert(struct_wf(old(space).structures@, old(space).nodes@, u));
                }
                assert forall|k2: Symbol| #[trigger] props_self.contains_key(k2)
                    implies props_self[k2].offset != offset by {
                    if dseq_self.len() > 0 {
                        assert(props_self[k2].offset != dseq_self[0]);
                    }
                }
            }
            assert forall|i: int| 0 <= i < ss2.len() implies #[trigger] struct_wf(
                ss2,
                nodes,
                i,
            ) by {
                assert(struct_wf(ss1, nodes, i));
                lemma_struct_wf_same_denote(ss1, ss2, nodes, u, i);
            }
        }
        (m, offset)
    }

    /// Force a unique successor, materialise its table, remove the property
    /// and push its slot offset onto the deleted stack. The structure this
    /// is invoked on is unchanged; the deletion is observed only through
    /// the returned unique structure.
    pub fn delete_property_transition(self, space: &mut Space, name: Symbol) -> (r: Gc<
        Structure,
    >)
        requires
            old(space).wf(),
            old(space).valid(self),
            old(space).props(self).contains_key(name),
            old(space).structs().len() < u32::MAX,
            old(space).nodes_seq().len() < u32::MAX,
        ensures
            final(space).wf(),
            final(space).valid(r),
            r.raw == old(space).structs().len(),
            final(space).structs().len() == old(space).structs().len() + 1,
            final(space).nodes_seq().len() == old(space).nodes_seq().len() + 1,
            final(space).props(r) == old(space).props(self).remove(name),
            final(space).at(r).spec_is_unique(),
            final(space).at(r).spec_has_table(),
            final(space).at(r).spec_slots_size() == old(space).at(self).spec_slots_size(),
            final(space).at(r).spec_deleted().size == old(space).at(self).spec_deleted().size
                + 1,
            holder_seq(final(space).nodes_seq(), final(space).at(r).spec_deleted())
                =~= seq![old(space).props(self)[name].offset] + holder_seq(
                old(space).nodes_seq(),
                old(space).at(self).spec_deleted(),
            ),
            forall|q: Gc<Structure>|
                old(space).valid(q) && q.raw != self.raw && q.raw != r.raw ==> final(space).at(q)
                    == old(space).at(q),
            forall|j: int|
                0 <= j < old(space).structs().len() ==> final(space).props_at_idx(j) == old(
                    space,
                ).props_at_idx(j),
            !final(space).at(r).spec_unique_transition(),
            final(space).at(self).spec_is_unique() == old(space).at(self).spec_is_unique(),
            final(space).at(self).spec_prototype() == old(space).at(self).spec_prototype(),
            final(space).at(self).spec_id() == old(space).at(self).spec_id(),
            final(space).at(self).spec_transitions() == old(space).at(self).spec_transitions(),
            final(space).at(self).spec_unique_transition() == old(space).at(
                self,
            ).spec_unique_transition(),
            final(space).at(self).spec_added() == old(space).at(self).spec_added(),
            final(space).at(self).spec_deleted() == old(space).at(self).spec_deleted(),
            final(space).at(self).spec_transit_count() == old(space).at(
                self,
            ).spec_transit_count(),
            final(space).at(self).spec_is_indexed() == old(space).at(self).spec_is_indexed(),
            final(space).at(self).spec_slots_size() == old(space).at(self).spec_slots_size(),
            (!old(space).at(self).spec_is_unique() || old(space).at(self).spec_has_table())
                ==> final(space).at(self) == old(space).at(self),
    {
        let m = Structure::new_unique(space, self);
        if !space.structures[m.raw as usize].has_table() {
            Structure::allocate_table(space, m);
        }
        Structure::delete(space, m, name);
        m
    }

    /// Force a unique successor, materialise its table and overwrite the
    /// property's attributes there.
    pub fn change_attributes_transition(
        self,
        space: &mut Space,
        name: Symbol,
        attributes: AttrSafe,
    ) -> (r: Gc<Structure>)
        requires
            old(space).wf(),
            old(space).valid(self),
            old(space).props(self).contains_key(name),
            !attributes.spec_is_not_found(),
            old(space).structs().len() < u32::MAX,
        ensures
            final(space).wf(),
            final(space).valid(r),
            r.raw == old(space).structs().len(),
            final(space).structs().len() == old(space).structs().len() + 1,
            final(space).nodes_seq() == old(space).nodes_seq(),
            final(space).props(r) == old(space).props(self).insert(
                name,
                MapEntry { offset: old(space).props(self)[name].offset, attrs: attributes },
            ),
            final(space).at(r).spec_is_unique(),
            final(space).at(r).spec_has_table(),
            final(space).at(r).spec_slots_size() == old(space).at(self).spec_slots_size(),
            forall|q: Gc<Structure>|
                old(space).valid(q) && q.raw != self.raw && q.raw != r.raw ==> final(space).at(q)
                    == old(space).at(q),
            forall|j: int|
                0 <= j < old(space).structs().len() ==> final(space).props_at_idx(j) == old(
                    space,
                ).props_at_idx(j),
            !final(space).at(r).spec_unique_transition(),
            final(space).at(self).spec_is_unique() == old(space).at(self).spec_is_unique(),
            final(space).at(self).spec_prototype() == old(space).at(self).spec_prototype(),
            final(space).at(self).spec_id() == old(space).at(self).spec_id(),
            final(space).at(self).spec_transitions() == old(space).at(self).spec_transitions(),
            final(space).at(self).spec_unique_transition() == old(space).at(
                self,
            ).spec_unique_transition(),
            final(space).at(self).spec_added() == old(space).at(self).spec_added(),
            final(space).at(self).spec_deleted() == old(space).at(self).spec_deleted(),
            final(space).at(self).spec_transit_count() == old(space).at(
                self,
            ).spec_transit_count(),
            final(space).at(self).spec_is_indexed() == old(space).at(self).spec_is_indexed(),
            final(space).at(self).spec_slots_size() == old(space).at(self).spec_slots_size(),
            (!old(space).at(self).spec_is_unique() || old(space).at(self).spec_has_table())
                ==> final(space).at(self) == old(space).at(self),
    {
        let m = Structure::new_unique(space, self);
        if !space.structures[m.raw as usize].has_table() {
            Structure::allocate_table(space, m);
        }
        Structure::change_attributes(space, m, name, attributes);
        m
    }

    /// Rewrite the prototype on a unique successor: in place when this
    /// structure is unique and not yet forked, else on a fresh unique
    /// successor.
    pub fn change_prototype_transition(
        self,
        space: &mut Space,
        prototype: Option<Gc<JsObject>>,
    ) -> (r: Gc<Structure>)
        requires
            old(space).wf(),
            old(space).valid(self),
            old(space).structs().len() < u32::MAX,
        ensures
            final(space).wf(),
            final(space).valid(r),
            final(space).nodes_seq() == old(space).nodes_seq(),
            final(space).at(r).spec_prototype() == prototype,
            final(space).at(r).spec_is_unique(),
            final(space).props(r) == old(space).props(self),
            final(space).at(r).spec_slots_size() == old(space).at(self).spec_slots_size(),
            forall|j: int|
                0 <= j < old(space).structs().len() ==> final(space).props_at_idx(j) == old(
                    space,
                ).props_at_idx(j),
            forall|q: Gc<Structure>|
                old(space).valid(q) && q.raw != self.raw && q.raw != r.raw ==> final(space).at(q)
                    == old(space).at(q),
            (old(space).at(self).spec_is_unique() && !old(space).at(
                self,
            ).spec_unique_transition()) ==> r == self && final(space).structs().len() == old(
                space,
            ).structs().len(),
            !(old(space).at(self).spec_is_unique() && !old(space).at(
                self,
            ).spec_unique_transition()) ==> r.raw == old(space).structs().len() && final(space).structs().len() == old(space).structs().len() + 1,
            final(space).at(self).spec_is_unique() == old(space).at(self).spec_is_unique(),
            final(space).at(self).spec_id() == old(space).at(self).spec_id(),
            final(space).at(self).spec_transitions() == old(space).at(self).spec_transitions(),
            final(space).at(self).spec_unique_transition() == old(space).at(
                self,
            ).spec_unique_transition(),
            final(space).at(self).spec_added() == old(space).at(self).spec_added(),
            final(space).at(self).spec_deleted() == old(space).at(self).spec_deleted(),
            final(space).at(self).spec_transit_count() == old(space).at(
                self,
            ).spec_transit_count(),
            final(space).at(self).spec_slots_size() == old(space).at(self).spec_slots_size(),
            !old(space).at(self).spec_is_unique() ==> final(space).at(self) == old(space).at(
                self,
            ),
            (old(space).at(self).spec_is_unique() && old(space).at(self).spec_unique_transition()
                && old(space).at(self).spec_has_table()) ==> final(space).at(self) == old(
                space,
            ).at(self),
            final(space).at(self).spec_is_indexed() == old(space).at(self).spec_is_indexed(),
            !(old(space).at(self).spec_is_unique() && !old(space).at(
                self,
            ).spec_unique_transition()) ==> final(space).at(self).spec_prototype() == old(
                space,
            ).at(self).spec_prototype(),
    {
        let this_i = self.raw as usize;
        proof {
            assert(struct_wf(space.structures@, space.nodes@, this_i as int));
        }
        if space.structures[this_i].is_unique()
            && !space.structures[this_i].transitions.is_enabled_unique_transition() {
            let st = &mut space.structures[this_i];
            st.prototype = prototype;
            proof {
                let ss1 = old(space).structures@;
                let ss2 = space.structures@;
                let u = this_i as int;
                assert forall|j: int| true implies props_at(ss2, j) == props_at(ss1, j) by {
                    lemma_props_update_same_denote(ss1, ss2, u, j);
                }
                assert forall|i: int| 0 <= i < ss2.len() implies #[trigger] struct_wf(
                    ss2,
                    space.nodes@,
                    i,
                ) by {
                    assert(struct_wf(ss1, space.nodes@, i));
                    lemma_struct_wf_same_denote(ss1, ss2, space.nodes@, u, i);
                }
            }
            self
        } else {
            let m = Structure::new_unique(space, self);
            let ghost mid = *space;
            let m_i = m.raw as usize;
            proof {
                assert(mid.wf());
            }
            let st = &mut space.structures[m_i];
            st.prototype = prototype;
            proof {
                let ss1 = mid.structures@;
                let ss2 = space.structures@;
                let u = m_i as int;
                assert(struct_wf(ss1, space.nodes@, u));
                assert forall|j: int| true implies props_at(ss2, j) == props_at(ss1, j) by {
                    lemma_props_update_same_denote(ss1, ss2, u, j);
                }
                assert forall|i: int| 0 <= i < ss2.len() implies #[trigger] struct_wf(
                    ss2,
                    space.nodes@,
                    i,
                ) by {
                    assert(struct_wf(ss1, space.nodes@, i));
                    lemma_struct_wf_same_denote(ss1, ss2, space.nodes@, u, i);
                }
            }
            m
        }
    }

    /// Set the indexed flag on a unique successor: in place when this
    /// structure is unique and not yet forked, else on a fresh unique
    /// successor.
    pub fn change_indexed_transition(self, space: &mut Space) -> (r: Gc<Structure>)
        requires
            old(space).wf(),
            old(space).valid(self),
            old(space).structs().len() < u32::MAX,
        ensures
            final(space).wf(),
            final(space).valid(r),
            final(space).nodes_seq() == old(space).nodes_seq(),
            final(space).at(r).spec_is_indexed(),
            final(space).at(r).spec_is_unique(),
            final(space).props(r) == old(space).props(self),
            final(space).at(r).spec_slots_size() == old(space).at(self).spec_slots_size(),
            forall|j: int|
                0 <= j < old(space).structs().len() ==> final(space).props_at_idx(j) == old(
                    space,
                ).props_at_idx(j),
            forall|q: Gc<Structure>|
                old(space).valid(q) && q.raw != self.raw && q.raw != r.raw ==> final(space).at(q)
                    == old(space).at(q),
            (old(space).at(self).spec_is_unique() && !old(space).at(
                self,
            ).spec_unique_transition()) ==> r == self,
            final(space).at(self).spec_is_unique() == old(space).at(self).spec_is_unique(),
            final(space).at(self).spec_id() == old(space).at(self).spec_id(),
            final(space).at(self).spec_transitions() == old(space).at(self).spec_transitions(),
            final(space).at(self).spec_unique_transition() == old(space).at(
                self,
            ).spec_unique_transition(),
            final(space).at(self).spec_added() == old(space).at(self).spec_added(),
            final(space).at(self).spec_deleted() == old(space).at(self).spec_deleted(),
            final(space).at(self).spec_transit_count() == old(space).at(
                self,
            ).spec_transit_count(),
            final(space).at(self).spec_slots_size() == old(space).at(self).spec_slots_size(),
            !old(space).at(self).spec_is_unique() ==> final(space).at(self) == old(space).at(
                self,
            ),
            (old(space).at(self).spec_is_unique() && old(space).at(self).spec_unique_transition()
                && old(space).at(self).spec_has_table()) ==> final(space).at(self) == old(
                space,
            ).at(self),
            final(space).at(self).spec_prototype() == old(space).at(self).spec_prototype(),
            !(old(space).at(self).spec_is_unique() && !old(space).at(
                self,
            ).spec_unique_transition()) ==> final(space).at(self).spec_is_indexed() == old(
                space,
            ).at(self).spec_is_indexed(),
            !(old(space).at(self).spec_is_unique() && !old(space).at(
                self,
            ).spec_unique_transition()) ==> r.raw == old(space).structs().len() && final(space).structs().len() == old(space).structs().len() + 1,
            (old(space).at(self).spec_is_unique() && !old(space).at(
                self,
            ).spec_unique_transition()) ==> final(space).structs().len() == old(
                space,
            ).structs().len(),
    {
        let this_i = self.raw as usize;
        proof {
            assert(struct_wf(space.structures@, space.nodes@, this_i as int));
        }
        if space.structures[this_i].is_unique()
            && !space.structures[this_i].transitions.is_enabled_unique_transition() {
            let st = &mut space.structures[this_i];
            st.transitions.set_indexed(true);
            proof {
                let ss1 = old(space).structures@;
                let ss2 = space.structures@;
                let u = this_i as int;
                assert forall|j: int| true implies props_at(ss2, j) == props_at(ss1, j) by {
                    lemma_props_update_same_denote(ss1, ss2, u, j);
                }
                assert forall|i: int| 0 <= i < ss2.len() implies #[trigger] struct_wf(
                    ss2,
                    space.nodes@,
                    i,
                ) by {
                    assert(struct_wf(ss1, space.nodes@, i));
                    lemma_struct_wf_same_denote(ss1, ss2, space.nodes@, u, i);
                }
            }
            self
        } else {
            let m = Structure::new_unique(space, self);
            let ghost mid = *space;
            let m_i = m.raw as usize;
            proof {
                assert(mid.wf());
            }
            let st = &mut space.structures[m_i];
            st.transitions.set_indexed(true);
            proof {
                let ss1 = mid.structures@;
                let ss2 = space.structures@;
                let u = m_i as int;
                assert(struct_wf(ss1, space.nodes@, u));
                assert forall|j: int| true implies props_at(ss2, j) == props_at(ss1, j) by {
                    lemma_props_update_same_denote(ss1, ss2, u, j);
                }
                assert forall|i: int| 0 <= i < ss2.len() implies #[trigger] struct_wf(
                    ss2,
                    space.nodes@,
                    i,
                ) by {
                    assert(struct_wf(ss1, space.nodes@, i));
                    lemma_struct_wf_same_denote(ss1, ss2, space.nodes@, u, i);
                }
            }
            m
        }
    }

    /// Force to unique, so the caller can track extensibility externally on
    /// the result: this structure itself when unique and not yet forked,
    /// else a fresh unique successor.
    pub fn change_extensible_transition(self, space: &mut Space) -> (r: Gc<Structure>)
        requires
            old(space).wf(),
            old(space).valid(self),
            old(space).structs().len() < u32::MAX,
        ensures
            final(space).wf(),
            final(space).valid(r),
            final(space).nodes_seq() == old(space).nodes_seq(),
            final(space).at(r).spec_is_unique(),
            final(space).props(r) == old(space).props(self),
            final(space).at(r).spec_slots_size() == old(space).at(self).spec_slots_size(),
            forall|j: int|
                0 <= j < old(space).structs().len() ==> final(space).props_at_idx(j) == old(
                    space,
                ).props_at_idx(j),
            forall|q: Gc<Structure>|
                old(space).valid(q) && q.raw != self.raw && q.raw != r.raw ==> final(space).at(q)
                    == old(space).at(q),
            (old(space).at(self).spec_is_unique() && !old(space).at(
                self,
            ).spec_unique_transition()) ==> r == self && *final(space) == *old(space),
            final(space).at(self).spec_is_unique() == old(space).at(self).spec_is_unique(),
            final(space).at(self).spec_id() == old(space).at(self).spec_id(),
            final(space).at(self).spec_transitions() == old(space).at(self).spec_transitions(),
            final(space).at(self).spec_unique_transition() == old(space).at(
                self,
            ).spec_unique_transition(),
            final(space).at(self).spec_added() == old(space).at(self).spec_added(),
            final(space).at(self).spec_deleted() == old(space).at(self).spec_deleted(),
            final(space).at(self).spec_transit_count() == old(space).at(
                self,
            ).spec_transit_count(),
            final(space).at(self).spec_slots_size() == old(space).at(self).spec_slots_size(),
            !old(space).at(self).spec_is_unique() ==> final(space).at(self) == old(space).at(
                self,
            ),
            (old(space).at(self).spec_is_unique() && old(space).at(self).spec_unique_transition()
                && old(space).at(self).spec_has_table()) ==> final(space).at(self) == old(
                space,
            ).at(self),
            final(space).at(self).spec_prototype() == old(space).at(self).spec_prototype(),
            final(space).at(self).spec_is_indexed() == old(space).at(self).spec_is_indexed(),
            !(old(space).at(self).spec_is_unique() && !old(space).at(
                self,
            ).spec_unique_transition()) ==> r.raw == old(space).structs().len() && final(space).structs().len() == old(space).structs().len() + 1,
    {
        let this_i = self.raw as usize;
        proof {
            assert(struct_wf(space.structures@, space.nodes@, this_i as int));
        }
        if space.structures[this_i].is_unique()
            && !space.structures[this_i].transitions.is_enabled_unique_transition() {
            self
        } else {
            Structure::new_unique(space, self)
        }
    }

    /// Privileged in-place rewrite of the prototype pointer, for bootstrap
    /// paths that know no other object shares this structure.
    pub fn change_prototype_with_no_transition(
        self,
        space: &mut Space,
        prototype: Gc<JsObject>,
    ) -> (r: Gc<Structure>)
        requires
            old(space).wf(),
            old(space).valid(self),
        ensures
            final(space).wf(),
            r == self,
            final(space).structs().len() == old(space).structs().len(),
            final(space).nodes_seq() == old(space).nodes_seq(),
            final(space).at(self).spec_prototype() == Some(prototype),
            final(space).props(self) == old(space).props(self),
            final(space).at(self).spec_slots_size() == old(space).at(self).spec_slots_size(),
            final(space).at(self).spec_is_unique() == old(space).at(self).spec_is_unique(),
            forall|j: int|
                0 <= j < old(space).structs().len() ==> final(space).props_at_idx(j) == old(
                    space,
                ).props_at_idx(j),
            forall|q: Gc<Structure>|
                old(space).valid(q) && q.raw != self.raw ==> final(space).at(q) == old(space).at(
                    q,
                ),
            final(space).at(self).spec_is_indexed() == old(space).at(self).spec_is_indexed(),
            final(space).at(self).spec_id() == old(space).at(self).spec_id(),
            final(space).at(self).spec_transitions() == old(space).at(self).spec_transitions(),
            final(space).at(self).spec_unique_transition() == old(space).at(
                self,
            ).spec_unique_transition(),
            final(space).at(self).spec_added() == old(space).at(self).spec_added(),
            final(space).at(self).spec_deleted() == old(space).at(self).spec_deleted(),
            final(space).at(self).spec_transit_count() == old(space).at(
                self,
            ).spec_transit_count(),
            final(space).at(self).spec_previous() == old(space).at(self).spec_previous(),
            final(space).at(self).spec_has_table() == old(space).at(self).spec_has_table(),
            final(space).at(self).spec_has_table() ==> final(space).at(self).spec_table_map()
                == old(space).at(self).spec_table_map(),
    {
        let this_i = self.raw as usize;
        proof {
            assert(struct_wf(space.structures@, space.nodes@, this_i as int));
        }
        let st = &mut space.structures[this_i];
        st.prototype = Some(prototype);
        proof {
            let ss1 = old(space).structures@;
            let ss2 = space.structures@;
            let u = this_i as int;
            assert forall|j: int| true implies props_at(ss2, j) == props_at(ss1, j) by {
                lemma_props_update_same_denote(ss1, ss2, u, j);
            }
            assert forall|i: int| 0 <= i < ss2.len() implies #[trigger] struct_wf(
                ss2,
                space.nodes@,
                i,
            ) by {
                assert(struct_wf(ss1, space.nodes@, i));
                lemma_struct_wf_same_denote(ss1, ss2, space.nodes@, u, i);
            }
        }
        self
    }

    /// Look a property up: the sentinel for a pristine root or an absent
    /// name, the pending delta without materialising when it matches, else
    /// the materialised table's entry.
    pub fn get(self, space: &mut Space, name: Symbol) -> (r: MapEntry)
        requires
            old(space).wf(),
            old(space).valid(self),
        ensures
            final(space).wf(),
            final(space).structs().len() == old(space).structs().len(),
            final(space).nodes_seq() == old(space).nodes_seq(),
            forall|q: Gc<Structure>|
                old(space).valid(q) && q.raw != self.raw ==> final(space).at(q) == old(space).at(
                    q,
                ),
            forall|j: int|
                0 <= j < old(space).structs().len() ==> final(space).props_at_idx(j) == old(
                    space,
                ).props_at_idx(j),
            old(space).props(self).contains_key(name) ==> r == old(space).props(self)[name],
            !old(space).props(self).contains_key(name) ==> r.offset == u32::MAX
                && r.attrs.spec_is_not_found(),
            final(space).at(self).spec_slots_size() == old(space).at(self).spec_slots_size(),
            final(space).at(self).spec_is_unique() == old(space).at(self).spec_is_unique(),
            final(space).at(self).spec_deleted() == old(space).at(self).spec_deleted(),
            final(space).at(self).spec_prototype() == old(space).at(self).spec_prototype(),
            final(space).at(self).spec_id() == old(space).at(self).spec_id(),
            final(space).at(self).spec_transitions() == old(space).at(self).spec_transitions(),
            final(space).at(self).spec_unique_transition() == old(space).at(
                self,
            ).spec_unique_transition(),
            final(space).at(self).spec_added() == old(space).at(self).spec_added(),
            final(space).at(self).spec_transit_count() == old(space).at(
                self,
            ).spec_transit_count(),
            final(space).at(self).spec_is_indexed() == old(space).at(self).spec_is_indexed(),
            old(space).at(self).spec_has_table() ==> *final(space) == *old(space),
            (!old(space).at(self).spec_has_table() && old(space).at(self).spec_previous()
                is None) ==> *final(space) == *old(space),
            (!old(space).at(self).spec_has_table() && !(old(space).at(self).spec_added().0
                is Dummy) && old(space).at(self).spec_added().0 == name) ==> *final(space)
                == *old(space),
    {
        let this_i = self.raw as usize;
        proof {
            assert(struct_wf(space.structures@, space.nodes@, this_i as int));
        }
        if !space.structures[this_i].has_table() {
            if space.structures[this_i].previous.is_none() {
                return MapEntry::not_found();
            }
            if space.structures[this_i].is_adding_map() {
                let (anm, aent) = space.structures[this_i].added;
                if anm == name {
                    return aent;
                }
            }
            Structure::allocate_table(space, self);
        }
        proof {
            assert(struct_wf(space.structures@, space.nodes@, this_i as int));
        }
        match &space.structures[this_i].table {
            Option::Some(t) => {
                match t.get(name) {
                    Option::Some(e) => e,
                    Option::None => MapEntry::not_found(),
                }
            },
            Option::None => {
                proof {
                    assert(false);
                }
                MapEntry::not_found()
            },
        }
    }

    /// The slot-vector capacity that should back this structure.
    pub fn storage_capacity(self, space: &Space) -> (r: usize)
        requires
            space.wf(),
            space.valid(self),
            2 * space.at(self).spec_slots_size() <= usize::MAX,
        ensures
            r == storage_capacity_spec(space.at(self).spec_slots_size()),
    {
        proof {
            assert(struct_wf(space.structures@, space.nodes@, self.raw as int));
        }
        let sz = space.structures[self.raw as usize].get_slots_size();
        if sz == 0 {
            0
        } else if sz < 8 {
            8
        } else {
            let mut p: usize = 8;
            while p < sz
                invariant
                    8 <= p,
                    8 <= sz,
                    2 * sz <= usize::MAX,
                    clp2up(sz as int, p as int) == clp2up(sz as int, 8),
                decreases 2 * sz - p,
            {
                p = p * 2;
            }
            p
        }
    }

    /// Every property with its slot offset, skipping non-enumerable ones
    /// unless `include_non_enum` is set. The listing order is not specified.
    #[verifier::rlimit(50)]
    pub fn get_own_property_names(self, space: &mut Space, include_non_enum: bool) -> (r: Vec<
        (Symbol, u32),
    >)
        requires
            old(space).wf(),
            old(space).valid(self),
        ensures
            final(space).wf(),
            final(space).structs().len() == old(space).structs().len(),
            final(space).nodes_seq() == old(space).nodes_seq(),
            forall|q: Gc<Structure>|
                old(space).valid(q) && q.raw != self.raw ==> final(space).at(q) == old(space).at(
                    q,
                ),
            forall|j: int|
                0 <= j < old(space).structs().len() ==> final(space).props_at_idx(j) == old(
                    space,
                ).props_at_idx(j),
            forall|t: int|
                0 <= t < r@.len() ==> old(space).props(self).contains_key((#[trigger] r@[t]).0)
                    && old(space).props(self)[r@[t].0].offset == r@[t].1 && (include_non_enum || old(
                    space,
                ).props(self)[r@[t].0].attrs.spec_is_enumerable()),
            forall|k: Symbol|
                #[trigger] old(space).props(self).contains_key(k) && (include_non_enum || old(space).props(
                    self,
                )[k].attrs.spec_is_enumerable()) ==> exists|t: int|
                    0 <= t < r@.len() && r@[t] == (k, old(space).props(self)[k].offset),
            forall|t1: int, t2: int| 0 <= t1 < t2 < r@.len() ==> r@[t1].0 != r@[t2].0,
    {
        let mut out: Vec<(Symbol, u32)> = Vec::new();
        let this_i = self.raw as usize;
        if Structure::allocate_table_if_needed(space, self) {
            let ghost props = old(space).props(self);
            let ghost entries = match space.structures@[this_i as int].table {
                Option::Some(t) => t.entries_seq(),
                Option::None => Seq::empty(),
            };
            proof {
                assert(struct_wf(space.structures@, space.nodes@, this_i as int));
                match space.structures@[this_i as int].table {
                    Option::Some(t) => {
                        t.lemma_enumeration();
                    },
                    Option::None => {
                        assert(false);
                    },
                }
            }
            let n = match &space.structures[this_i].table {
                Option::Some(t) => t.len(),
                Option::None => 0,
            };
            let mut i: usize = 0;
            while i < n
                invariant
                    old(space).wf(),
                    old(space).valid(self),
                    this_i == self.raw as usize,
                    space.at(self).spec_has_table(),
                    space.valid(self),
                    match space.structures@[this_i as int].table {
                        Option::Some(t) => entries == t.entries_seq() && t@ == props && n
                            == t.spec_len(),
                        Option::None => false,
                    },
                    0 <= i <= n,
                    n == entries.len(),
                    forall|t: int|
                        0 <= t < entries.len() ==> props.contains_key(
                            (#[trigger] entries[t]).0,
                        ) && props[entries[t].0] == entries[t].1,
                    forall|a: int, b: int|
                        0 <= a < b < entries.len() ==> (#[trigger] entries[a]).0 != (
                        #[trigger] entries[b]).0,
                    forall|t: int|
                        0 <= t < out@.len() ==> props.contains_key((#[trigger] out@[t]).0)
                            && props[out@[t].0].offset == out@[t].1 && (include_non_enum || props[out@[t].0].attrs.spec_is_enumerable()),
                    forall|t: int|
                        0 <= t < out@.len() ==> exists|j: int|
                            0 <= j < i && (#[trigger] entries[j]).0 == (#[trigger] out@[t]).0,
                    forall|j: int|
                        0 <= j < i && (include_non_enum || (#[trigger] entries[j]).1.attrs.spec_is_enumerable())
                            ==> exists|t: int|
                            0 <= t < out@.len() && out@[t] == (entries[j].0, entries[j].1.offset),
                    forall|t1: int, t2: int|
                        0 <= t1 < t2 < out@.len() ==> out@[t1].0 != out@[t2].0,
                decreases n - i,
            {
                let (k, e) = match &space.structures[this_i].table {
                    Option::Some(t) => t.entry_at(i),
                    Option::None => {
                        proof {
                            assert(false);
                        }
                        (Symbol::Dummy, MapEntry::not_found())
                    },
                };
                let ghost out_old = out@;
                if include_non_enum || e.attrs.is_enumerable() {
                    proof {
                        assert forall|t: int| 0 <= t < out@.len() implies out@[t].0 != k by {
                            let j = choose|j: int|
                                0 <= j < i && (#[trigger] entries[j]).0 == out@[t].0;
                            assert(entries[j].0 != entries[i as int].0);
                        }
                    }
                    out.push((k, e.offset));
                }
                proof {
                    assert forall|j: int|
                        0 <= j < i + 1 && (include_non_enum || (
                        #[trigger] entries[j]).1.attrs.spec_is_enumerable()) implies exists|t: int|
                        0 <= t < out@.len() && out@[t] == (entries[j].0, entries[j].1.offset) by {
                        if j < i {
                            let t = choose|t: int|
                                0 <= t < out_old.len() && out_old[t] == (
                                entries[j].0,
                                entries[j].1.offset,
                            );
                            assert(out@[t] == (entries[j].0, entries[j].1.offset));
                        } else if !(include_non_enum || e.attrs.spec_is_enumerable()) {
                            assert(false);
                        } else {
                            assert(out@[out@.len() - 1] == (entries[j].0, entries[j].1.offset));
                        }
                    }
                }
                i = i + 1;
            }
            proof {
                assert forall|k: Symbol|
                    #[trigger] props.contains_key(k) && (include_non_enum || props[k].attrs.spec_is_enumerable()) implies exists|t: int|
                    0 <= t < out@.len() && out@[t] == (k, props[k].offset) by {
                    let j = choose|j: int|
                        0 <= j < entries.len() && (#[trigger] entries[j]).0 == k;
                    assert(props[entries[j].0] == entries[j].1);
                    assert(include_non_enum || entries[j].1.attrs.spec_is_enumerable());
                    let t = choose|t: int|
                        0 <= t < out@.len() && out@[t] == (entries[j].0, entries[j].1.offset);
                    assert(out@[t] == (k, props[k].offset));
                }
            }
        }
        out
    }
}


/// A power of two.
pub open spec fn is_pow2(n: int) -> bool
    decreases n,
{
    if n <= 0 {
        false
    } else if n == 1 {
        true
    } else if n % 2 == 1 {
        false
    } else {
        is_pow2(n / 2)
    }
}

/// Doubling from a power of two below `2 * sz` lands on a power of two in
/// `[sz, 2 * sz)`.
proof fn lemma_clp2up_bounds(sz: int, p: int)
    requires
        is_pow2(p),
        0 < p < 2 * sz,
    ensures
        is_pow2(clp2up(sz, p)),
        sz <= clp2up(sz, p) < 2 * sz,
    decreases 2 * sz - p,
{
    if p >= sz {
    } else {
        assert(is_pow2(2 * p));
        lemma_clp2up_bounds(sz, 2 * p);
    }
}

/// Distinct powers of two differ by at least a factor of two.
proof fn lemma_pow2_double(x: int, y: int)
    requires
        is_pow2(x),
        is_pow2(y),
        x < y,
    ensures
        2 * x <= y,
    decreases y,
{
    if x == 1 {
        assert(y % 2 == 0);
    } else {
        lemma_pow2_double(x / 2, y / 2);
    }
}

/// From eight slots up, the backing capacity is the least power of two no
/// smaller than the slot count.
pub proof fn lemma_storage_capacity_pow2(sz: int)
    requires
        sz >= 8,
    ensures
        is_pow2(storage_capacity_spec(sz)),
        sz <= storage_capacity_spec(sz) < 2 * sz,
{
    assert(is_pow2(1));
    assert(is_pow2(2));
    assert(is_pow2(4));
    assert(is_pow2(8));
    lemma_clp2up_bounds(sz, 8);
}

/// The backing capacity grows monotonically with the slot count.
pub proof fn lemma_storage_capacity_monotone(a: int, b: int)
    requires
        0 <= a <= b,
    ensures
        storage_capacity_spec(a) <= storage_capacity_spec(b),
{
    if b >= 8 {
        lemma_storage_capacity_pow2(b);
    }
    if a >= 8 {
        lemma_storage_capacity_pow2(a);
        let ra = storage_capacity_spec(a);
        let rb = storage_capacity_spec(b);
        if ra > rb {
            lemma_pow2_double(rb, ra);
        }
    }
}

/// A structure's slot count is its table length plus its deleted-stack size
/// once the table is materialised; before that it is the cached count, which
/// the partition law below pins to the same value.
pub proof fn lemma_slots_size_formula(space: &Space, r: Gc<Structure>)
    requires
        space.wf(),
        space.valid(r),
        space.at(r).spec_has_table(),
    ensures
        space.at(r).spec_slots_size() == space.at(r).spec_table_map().dom().len() + space.at(
            r,
        ).spec_deleted().size,
        space.at(r).spec_table_map() == space.props(r),
{
    let i = r.raw as int;
    assert(struct_wf(space.structures@, space.nodes@, i));
    match space.structures@[i].table {
        Option::Some(t) => {
            t.lemma_enumeration();
        },
        Option::None => {},
    }
}

/// The live slot offsets and the deleted stack of a structure partition its
/// slot count: names plus deleted entries add up to `slots_size`, every
/// live offset is in range, and no live offset sits on the deleted stack.
pub proof fn lemma_slots_partition(space: &Space, r: Gc<Structure>)
    requires
        space.wf(),
        space.valid(r),
    ensures
        space.props(r).dom().finite(),
        space.props(r).dom().len() + space.at(r).spec_deleted().size == space.at(
            r,
        ).spec_slots_size(),
        0 <= space.at(r).spec_slots_size() <= u32::MAX,
        holder_seq(space.nodes_seq(), space.at(r).spec_deleted()).len() == space.at(
            r,
        ).spec_deleted().size,
        forall|k: Symbol| #[trigger]
            space.props(r).contains_key(k) ==> 0 <= space.props(r)[k].offset < space.at(
                r,
            ).spec_slots_size(),
        forall|k: Symbol, j: int|
            #![trigger space.props(r).contains_key(k), holder_seq(space.nodes_seq(), space.at(r).spec_deleted())[j]]
            space.props(r).contains_key(k) && 0 <= j < holder_seq(
                space.nodes_seq(),
                space.at(r).spec_deleted(),
            ).len() ==> space.props(r)[k].offset != holder_seq(
                space.nodes_seq(),
                space.at(r).spec_deleted(),
            )[j],
        holder_seq(space.nodes_seq(), space.at(r).spec_deleted()).no_duplicates(),
{
    let i = r.raw as int;
    assert(struct_wf(space.structures@, space.nodes@, i));
    lemma_props_at_finite(space.structures@, i);
    lemma_partition_count(
        props_at(space.structures@, i),
        holder_seq(space.nodes@, space.structures@[i].deleted),
        space.structures@[i].spec_slots_size(),
    );
}

/// A handle addresses a structure exactly when its index is below the
/// arena's length, so validity chains through the length clauses of the
/// mutating contracts.
pub proof fn lemma_valid(space: &Space, r: Gc<Structure>)
    ensures
        space.valid(r) <==> (r.raw as int) < space.structs().len(),
{
}

/// The handle and raw-index forms of the arena accessors agree, bridging
/// the per-handle clauses and the per-index frame clauses of the contracts.
pub proof fn lemma_props_handle(space: &Space, r: Gc<Structure>)
    ensures
        space.props(r) == space.props_at_idx(r.raw as int),
        space.at(r) == space.at_idx(r.raw as int),
        space.valid(r) ==> space.at(r) == space.structs()[r.raw as int],
{
}

/// A structure either carries a materialised table or still points at its
/// parent; only a pristine empty root has neither.
pub proof fn lemma_table_or_previous(space: &Space, r: Gc<Structure>)
    requires
        space.wf(),
        space.valid(r),
    ensures
        space.at(r).spec_has_table() || space.at(r).spec_previous() is Some || (space.at(
            r,
        ).spec_slots_size() == 0 && space.props(r) == Map::<Symbol, MapEntry>::empty()),
{
    assert(struct_wf(space.structures@, space.nodes@, r.raw as int));
}

/// Every successor cached under `(name, attrs)` carries exactly that pair
/// as its delta, at a slot offset fresh for the parent's map, and denotes
/// the parent's map extended by the delta.
pub proof fn lemma_cached_transition(space: &Space, r: Gc<Structure>, key: TransitionKey)
    requires
        space.wf(),
        space.valid(r),
        space.at(r).spec_transitions().contains_key(key),
    ensures
        r.raw < space.at(r).spec_transitions()[key] < space.structs().len(),
        space.at_idx(space.at(r).spec_transitions()[key] as int).spec_added().0 == key.name,
        space.at_idx(space.at(r).spec_transitions()[key] as int).spec_added().1.attrs.raw
            == key.attrs,
        space.props_at_idx(space.at(r).spec_transitions()[key] as int) == space.props(r).insert(
            key.name,
            space.at_idx(space.at(r).spec_transitions()[key] as int).spec_added().1,
        ),
        forall|k2: Symbol| #[trigger]
            space.props(r).contains_key(k2) ==> space.props(r)[k2].offset != space.at_idx(
                space.at(r).spec_transitions()[key] as int,
            ).spec_added().1.offset,
        !space.at_idx(space.at(r).spec_transitions()[key] as int).spec_is_unique(),
{
    assert(struct_wf(space.structures@, space.nodes@, r.raw as int));
    assert(trans_cache_ok(space.structures@, r.raw as int, key));
}

/// No structure's transition count passes the cap.
pub proof fn lemma_transit_count_cap(space: &Space, r: Gc<Structure>)
    requires
        space.wf(),
        space.valid(r),
    ensures
        space.at(r).spec_transit_count() <= 32,
{
    assert(struct_wf(space.structures@, space.nodes@, r.raw as int));
}


/// A map entry owns no managed references.
impl Trace for MapEntry {
    open spec fn owned_refs(&self) -> Seq<CellRef> {
        Seq::empty()
    }

    fn trace<V: Tracer>(&self, tracer: &mut V) {
        proof {
            assert(tracer.visited() + self.owned_refs() =~= tracer.visited());
        }
    }
}

impl Cell for MapEntry {
    closed spec fn ty_id_spec() -> u64 {
        13
    }

    fn ty_of() -> u64 {
        13
    }

    fn compute_size(&self) -> usize {
        core::mem::size_of::<Self>()
    }

    fn get_typename(&self) -> &'static str {
        "MapEntry"
    }

    fn get_class_value(&self) -> Option<u32> {
        None
    }

    fn get_structure(&self) -> Option<Gc<Structure>> {
        None
    }
}

/// A structure owns its cached successors, its prototype link, the head of
/// its deleted-slot list, and its parent link; its table holds only plain
/// offsets and attribute words, so it contributes no references.
impl Trace for Structure {
    closed spec fn owned_refs(&self) -> Seq<CellRef> {
        self.transitions.owned_refs() + (match self.prototype {
            Option::Some(p) => seq![CellRef::Object(p.raw)],
            Option::None => Seq::empty(),
        }) + (match self.deleted.entry {
            Option::Some(h) => seq![CellRef::Deleted(h)],
            Option::None => Seq::empty(),
        }) + (match self.previous {
            Option::Some(p) => seq![CellRef::Structure(p.raw)],
            Option::None => Seq::empty(),
        })
    }

    fn trace<V: Tracer>(&self, tracer: &mut V) {
        let ghost base0 = tracer.visited();
        self.transitions.trace(tracer);
        match self.prototype {
            Option::Some(p) => {
                tracer.trace(CellRef::Object(p.raw));
            },
            Option::None => {},
        }
        match self.deleted.entry {
            Option::Some(h) => {
                tracer.trace(CellRef::Deleted(h));
            },
            Option::None => {},
        }
        match self.previous {
            Option::Some(p) => {
                tracer.trace(CellRef::Structure(p.raw));
            },
            Option::None => {},
        }
        proof {
            assert(tracer.visited() =~= base0 + self.owned_refs());
        }
    }
}

impl Cell for Structure {
    closed spec fn ty_id_spec() -> u64 {
        15
    }

    fn ty_of() -> u64 {
        15
    }

    fn compute_size(&self) -> usize {
        core::mem::size_of::<Self>()
    }

    fn get_typename(&self) -> &'static str {
        "Structure"
    }

    fn get_class_value(&self) -> Option<u32> {
        None
    }

    fn get_structure(&self) -> Option<Gc<Structure>> {
        None
    }
}

} // verus!
