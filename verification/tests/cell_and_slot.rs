use starlight::attributes::{
    AttrSafe, ATTR_CONFIGURABLE, ATTR_DATA, ATTR_EMPTY, ATTR_ENUMERABLE, ATTR_WRITABLE,
};
use starlight::cell::{
    object_ty_of_type, CellRef, Gc, Header, MarkStack, Trace, BLOCK_SIZE, GC_BLACK, GC_WHITE,
};
use starlight::slot::{JsValue, PutResultType, Slot, StoredSlot, JS_VALUE_UNDEFINED};
use starlight::structure::{MapEntry, Space, Structure};
use starlight::symbol::Symbol;

#[test]
fn attribute_predicates() {
    let d = AttrSafe::object_data();
    assert_eq!(d.raw(), ATTR_WRITABLE | ATTR_ENUMERABLE | ATTR_CONFIGURABLE | ATTR_DATA);
    assert!(!d.is_not_found());
    assert!(d.is_enumerable());
    assert!(d.is_data());
    assert!(d.is_simple_data());

    let nf = AttrSafe::not_found();
    assert_eq!(nf.raw(), ATTR_EMPTY);
    assert!(nf.is_not_found());

    let h = AttrSafe::object_data_hidden();
    assert!(!h.is_enumerable());
    assert!(h.is_data());

    let ro = AttrSafe::new(ATTR_DATA);
    assert!(ro.is_data());
    assert!(!ro.is_simple_data());
}

#[test]
fn map_entry_sentinel() {
    let nf = MapEntry::not_found();
    assert!(nf.is_not_found());
    assert_eq!(nf.offset, u32::MAX);
}

#[test]
fn header_packs_tag_into_discriminator() {
    let mut h = Header::new(0x1000);
    assert_eq!(h.vtable(), 0x1000);
    assert_eq!(h.tag(), GC_WHITE);
    h.set_tag(GC_BLACK);
    assert_eq!(h.tag(), GC_BLACK);
    assert_eq!(h.vtable(), 0x1000);
    h.set_vtable(0x2000);
    assert_eq!(h.vtable(), 0x2000);
    assert_eq!(h.tag(), GC_BLACK);
    assert!(!h.is_zapped());
    h.zap(0);
    assert!(h.is_zapped());
    assert_eq!(h.vtable(), 0);
    assert_eq!(h.tag(), GC_BLACK);
}

#[test]
fn header_address_classification() {
    let h = Header::new(0);
    // block cells start on even multiples of half the alignment
    assert!(!h.is_precise_allocation(16384));
    assert!(h.is_precise_allocation(16384 + 8));
    assert_eq!(h.block(BLOCK_SIZE * 3 + 100), BLOCK_SIZE * 3);
    assert_eq!(h.data_start(64), 72);
    assert_eq!(h.precise_allocation(64), 48);
}

#[test]
fn managed_reference_identity() {
    let a: Gc<Structure> = Gc::from_handle(3);
    let b: Gc<Structure> = Gc::from_handle(3);
    let c: Gc<Structure> = Gc::from_handle(4);
    assert!(Gc::ptr_eq(a, b));
    assert!(!Gc::ptr_eq(a, c));
    assert_ne!(object_ty_of_type::<u8>(), object_ty_of_type::<u16>());
}

#[test]
fn tracing_reports_owned_references() {
    let mut space = Space::new();
    let root = Structure::new_indexed(&mut space, None, false);
    let (s1, _) = root.add_property_transition(&mut space, Symbol::Key(1), AttrSafe::object_data());
    let _ = s1;

    // the root now caches one successor and owns no other references
    let mut marks = MarkStack::new();
    space.structure_at(root).trace(&mut marks);
    assert_eq!(marks.refs().len(), 1);
    assert_eq!(marks.refs()[0], CellRef::Structure(s1.raw));

    // the successor owns its parent link
    let mut marks2 = MarkStack::new();
    space.structure_at(s1).trace(&mut marks2);
    assert_eq!(marks2.refs().len(), 1);
    assert_eq!(marks2.refs()[0], CellRef::Structure(root.raw));
}

#[test]
fn slot_lifecycle_and_cache_bits() {
    let mut s = Slot::new();
    assert!(s.is_not_found());
    assert!(!s.is_used());
    assert!(!s.is_put_cacheable());
    assert_eq!(s.offset(), u32::MAX);
    assert!(!s.has_offset());
    assert_eq!(s.put_result_type(), PutResultType::Nothing);

    s.set_woffset(JsValue { raw: 42 }, AttrSafe::object_data(), Some(Gc::from_handle(9)), 5);
    assert_eq!(s.offset(), 5);
    assert!(s.has_offset());
    assert!(s.is_load_cacheable());
    assert!(s.is_store_cacheable());
    assert!(!s.is_not_found());
    match s.base() {
        Some(b) => assert_eq!(b.raw, 9),
        None => panic!("base missing"),
    }

    s.mark_put_result(PutResultType::New, 6);
    assert_eq!(s.put_result_type(), PutResultType::New);
    assert_eq!(s.offset(), 6);
    assert!(s.is_put_cacheable());
    s.make_put_uncacheable();
    assert!(!s.is_put_cacheable());

    s.make_uncacheable();
    assert!(!s.is_load_cacheable());
    assert!(!s.is_store_cacheable());

    s.clear();
    assert!(s.is_not_found());
    assert_eq!(s.offset(), u32::MAX);
    assert_eq!(s.parent.value().raw, JS_VALUE_UNDEFINED);
}

#[test]
fn slot_set_1_drops_the_offset() {
    let mut s = Slot::new();
    s.set_1(JsValue { raw: 7 }, AttrSafe::object_data(), None);
    assert_eq!(s.offset(), u32::MAX);
    assert!(!s.has_offset());
    assert!(!s.is_load_cacheable());
    assert_eq!(s.parent.value().raw, 7);
}

#[test]
fn slot_set_from_slot_copies_value_and_attrs() {
    let stored = StoredSlot::new_raw(JsValue { raw: 11 }, AttrSafe::object_data());
    let mut s = Slot::new();
    s.set_from_slot(&stored, Some(Gc::from_handle(2)));
    assert_eq!(s.parent.value().raw, 11);
    assert_eq!(s.parent.attributes().raw(), AttrSafe::object_data().raw());
    assert_eq!(s.offset(), u32::MAX);
}
