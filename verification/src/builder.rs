//! Bulk construction of an initial root structure: a transient, unmanaged
//! helper that fills a property table and then builds the root in one step.
//!
//! While building, offsets may be handed out in any order and with gaps;
//! only `build` demands that they form exactly `0 .. len`, because the
//! structure it produces must keep live offsets and deleted slots a
//! partition of its slot count.

use vstd::prelude::*;

use crate::attributes::AttrSafe;
use crate::cell::Gc;
use crate::structure::{partition_ok, JsObject, MapEntry, Space, Structure};
use crate::symbol::Symbol;
use crate::table::PropTable;

verus! {

/// Builds an initial property table and turns it into a root structure.
pub struct StructureBuilder {
    prototype: Option<Gc<JsObject>>,
    table: PropTable,
}

impl StructureBuilder {
    /// The map built so far.
    pub closed spec fn view(&self) -> Map<Symbol, MapEntry> {
        self.table@
    }

    /// Number of properties added so far.
    pub closed spec fn spec_len(&self) -> nat {
        self.table.spec_len()
    }

    /// The prototype the built root will carry.
    pub closed spec fn spec_prototype(&self) -> Option<Gc<JsObject>> {
        self.prototype
    }

    /// No two properties share a slot offset, and none carries the
    /// "no such property" sentinel.
    pub closed spec fn wf(&self) -> bool {
        &&& self.table.wf()
        &&& forall|k: Symbol| #[trigger]
            self.table@.contains_key(k) ==> !self.table@[k].attrs.spec_is_not_found()
        &&& forall|k1: Symbol, k2: Symbol|
            #![trigger self.table@.contains_key(k1), self.table@.contains_key(k2)]
            self.table@.contains_key(k1) && self.table@.contains_key(k2) && k1 != k2
                ==> self.table@[k1].offset != self.table@[k2].offset
    }

    /// Fresh builder with no properties.
    pub fn new(prototype: Option<Gc<JsObject>>) -> (r: Self)
        ensures
            r.wf(),
            r.view() == Map::<Symbol, MapEntry>::empty(),
            r.spec_len() == 0,
            r.spec_prototype() == prototype,
    {
        let r = StructureBuilder { prototype, table: PropTable::new() };
        proof {
            assert(r.table@ =~= Map::<Symbol, MapEntry>::empty());
        }
        r
    }

    /// Add a property at the next sequential offset, which must not have
    /// been taken by an out-of-order add. The name must be new; callers
    /// check with [`Self::find`] first.
    pub fn add(&mut self, symbol: Symbol, attributes: AttrSafe) -> (r: MapEntry)
        requires
            old(self).wf(),
            !old(self).view().contains_key(symbol),
            !attributes.spec_is_not_found(),
            old(self).spec_len() < u32::MAX,
            forall|k: Symbol| #[trigger]
                old(self).view().contains_key(k) ==> old(self).view()[k].offset != old(
                    self,
                ).spec_len(),
        ensures
            final(self).wf(),
            r == (MapEntry { offset: old(self).spec_len() as u32, attrs: attributes }),
            final(self).view() == old(self).view().insert(symbol, r),
            final(self).spec_len() == old(self).spec_len() + 1,
            final(self).spec_prototype() == old(self).spec_prototype(),
    {
        let index = self.table.len();
        let entry = MapEntry { offset: index as u32, attrs: attributes };
        self.table.set(symbol, entry);
        proof {
            let props1 = old(self).table@;
            let props2 = self.table@;
            assert forall|k1: Symbol, k2: Symbol|
                #![trigger props2.contains_key(k1), props2.contains_key(k2)]
                props2.contains_key(k1) && props2.contains_key(k2) && k1 != k2
                implies props2[k1].offset != props2[k2].offset by {
                if k1 != symbol && k2 != symbol {
                    assert(props1.contains_key(k1) && props1.contains_key(k2));
                } else if k1 == symbol {
                    assert(props1.contains_key(k2));
                } else {
                    assert(props1.contains_key(k1));
                }
            }
            assert forall|k: Symbol| #[trigger] props2.contains_key(k)
                implies !props2[k].attrs.spec_is_not_found() by {
                if k != symbol {
                    assert(props1.contains_key(k));
                }
            }
        }
        entry
    }

    /// Add a property at a caller-chosen offset that no other property
    /// uses. The name must be new.
    pub fn add_with_index(&mut self, symbol: Symbol, index: usize, attributes: AttrSafe)
        requires
            old(self).wf(),
            !old(self).view().contains_key(symbol),
            !attributes.spec_is_not_found(),
            index <= u32::MAX,
            forall|k: Symbol| #[trigger]
                old(self).view().contains_key(k) ==> old(self).view()[k].offset != index,
        ensures
            final(self).wf(),
            final(self).view() == old(self).view().insert(
                symbol,
                MapEntry { offset: index as u32, attrs: attributes },
            ),
            final(self).spec_len() == old(self).spec_len() + 1,
            final(self).spec_prototype() == old(self).spec_prototype(),
    {
        let before = self.find(symbol);
        if !before.is_not_found() {
            proof {
                assert(false);
            }
        }
        let entry = MapEntry { offset: index as u32, attrs: attributes };
        self.table.set(symbol, entry);
        proof {
            let props1 = old(self).table@;
            let props2 = self.table@;
            assert forall|k1: Symbol, k2: Symbol|
                #![trigger props2.contains_key(k1), props2.contains_key(k2)]
                props2.contains_key(k1) && props2.contains_key(k2) && k1 != k2
                implies props2[k1].offset != props2[k2].offset by {
                if k1 != symbol && k2 != symbol {
                    assert(props1.contains_key(k1) && props1.contains_key(k2));
                } else if k1 == symbol {
                    assert(props1.contains_key(k2));
                } else {
                    assert(props1.contains_key(k1));
                }
            }
            assert forall|k: Symbol| #[trigger] props2.contains_key(k)
                implies !props2[k].attrs.spec_is_not_found() by {
                if k != symbol {
                    assert(props1.contains_key(k));
                }
            }
        }
    }

    /// Replace the attributes of a property already added; the slot offset
    /// stays where it was assigned.
    pub fn override_property(&mut self, symbol: Symbol, entry: MapEntry)
        requires
            old(self).wf(),
            old(self).view().contains_key(symbol),
            entry.offset == old(self).view()[symbol].offset,
            !entry.attrs.spec_is_not_found(),
        ensures
            final(self).wf(),
            final(self).view() == old(self).view().insert(symbol, entry),
            final(self).spec_len() == old(self).spec_len(),
            final(self).spec_prototype() == old(self).spec_prototype(),
    {
        self.table.set(symbol, entry);
        proof {
            let props1 = old(self).table@;
            let props2 = self.table@;
            assert forall|k1: Symbol, k2: Symbol|
                #![trigger props2.contains_key(k1), props2.contains_key(k2)]
                props2.contains_key(k1) && props2.contains_key(k2) && k1 != k2
                implies props2[k1].offset != props2[k2].offset by {
                assert(props1.contains_key(k1) && props1.contains_key(k2));
            }
            assert forall|k: Symbol| #[trigger] props2.contains_key(k)
                implies !props2[k].attrs.spec_is_not_found() by {
                if k != symbol {
                    assert(props1.contains_key(k));
                }
            }
        }
    }

    /// Look a name up; the sentinel entry on a miss.
    pub fn find(&self, symbol: Symbol) -> (r: MapEntry)
        requires
            self.wf(),
        ensures
            self.view().contains_key(symbol) ==> r == self.view()[symbol]
                && !r.attrs.spec_is_not_found(),
            !self.view().contains_key(symbol) ==> r.offset == u32::MAX
                && r.attrs.spec_is_not_found(),
    {
        match self.table.get(symbol) {
            Option::Some(e) => e,
            Option::None => MapEntry::not_found(),
        }
    }

    /// Consume the builder and produce a root structure whose table holds
    /// exactly the added properties. The offsets handed out must by now
    /// fill `0 .. len` without gaps, the shape every structure keeps.
    pub fn build(self, space: &mut Space, unique: bool, indexed: bool) -> (r: Gc<Structure>)
        requires
            old(space).wf(),
            old(space).structs().len() < u32::MAX,
            self.wf(),
            self.spec_len() <= u32::MAX,
            partition_ok(self.view(), Seq::<u32>::empty(), self.spec_len() as int),
        ensures
            final(space).wf(),
            final(space).valid(r),
            r.raw == old(space).structs().len(),
            final(space).structs().len() == old(space).structs().len() + 1,
            final(space).nodes_seq() == old(space).nodes_seq(),
            forall|j: int|
                0 <= j < old(space).structs().len() ==> final(space).props_at_idx(j) == old(
                    space,
                ).props_at_idx(j),
            final(space).props(r) == self.view(),
            final(space).at(r).spec_is_unique() == unique,
            final(space).at(r).spec_is_indexed() == indexed,
            final(space).at(r).spec_slots_size() == self.spec_len(),
            final(space).at(r).spec_prototype() == self.spec_prototype(),
            final(space).at(r).spec_has_table(),
            final(space).at(r).spec_id() == 0,
            final(space).at(r).spec_deleted().size == 0,
            final(space).at(r).spec_previous() is None,
    {
        let StructureBuilder { table, prototype } = self;
        Structure::new_from_table(space, Some(table), prototype, unique, indexed)
    }
}

} // verus!
