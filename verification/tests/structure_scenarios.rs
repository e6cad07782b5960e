use starlight::attributes::AttrSafe;
use starlight::cell::Gc;
use starlight::structure::{MapEntry, Space, Structure};
use starlight::symbol::Symbol;

fn data() -> AttrSafe {
    AttrSafe::object_data()
}

#[test]
fn transition_caching_shares_successors() {
    let mut space = Space::new();
    let root = Structure::new_indexed(&mut space, None, false);

    let (s1, off_x) = root.add_property_transition(&mut space, Symbol::Key(1), data());
    assert_eq!(off_x, 0);
    let (s2, off_y) = s1.add_property_transition(&mut space, Symbol::Key(2), data());
    assert_eq!(off_y, 1);

    // a second object walking the same path obtains the same structures
    let (s1b, off_xb) = root.add_property_transition(&mut space, Symbol::Key(1), data());
    assert!(Gc::ptr_eq(s1, s1b));
    assert_eq!(off_xb, 0);
    let (s2b, off_yb) = s1b.add_property_transition(&mut space, Symbol::Key(2), data());
    assert!(Gc::ptr_eq(s2, s2b));
    assert_eq!(off_yb, 1);

    assert_eq!(space.structure_at(s2).get_slots_size(), 2);
    assert!(!space.structure_at(s2).is_unique());
}

#[test]
fn same_name_different_attrs_distinct_successors() {
    let mut space = Space::new();
    let root = Structure::new_indexed(&mut space, None, false);
    let (sa, _) = root.add_property_transition(&mut space, Symbol::Key(1), data());
    let (sb, _) =
        root.add_property_transition(&mut space, Symbol::Key(1), AttrSafe::object_data_hidden());
    assert!(!Gc::ptr_eq(sa, sb));
}

#[test]
fn delete_recycles_slot_offsets() {
    let mut space = Space::new();
    let root = Structure::new_indexed(&mut space, None, false);
    let (s1, _) = root.add_property_transition(&mut space, Symbol::Key(1), data());
    let (s2, _) = s1.add_property_transition(&mut space, Symbol::Key(2), data());

    // delete "x": a unique structure; "y" keeps offset 1; the freed offset 0
    // stays on the deleted stack, so the slot count stays 2
    let u1 = s2.delete_property_transition(&mut space, Symbol::Key(1));
    assert!(space.structure_at(u1).is_unique());
    assert_eq!(space.structure_at(u1).get_slots_size(), 2);
    let y = u1.get(&mut space, Symbol::Key(2));
    assert!(!y.is_not_found());
    assert_eq!(y.offset, 1);
    let x = u1.get(&mut space, Symbol::Key(1));
    assert!(x.is_not_found());

    // adding "z" reuses the freed offset 0 and keeps the slot count
    let (u2, off_z) = u1.add_property_transition(&mut space, Symbol::Key(3), data());
    assert!(Gc::ptr_eq(u1, u2));
    assert!(space.structure_at(u2).is_unique());
    assert_eq!(off_z, 0);
    assert_eq!(space.structure_at(u2).get_slots_size(), 2);
}

#[test]
fn add_then_delete_with_recycled_slot_keeps_slots_size() {
    let mut space = Space::new();
    let root = Structure::new_indexed(&mut space, None, false);
    let (s1, _) = root.add_property_transition(&mut space, Symbol::Key(1), data());
    let u1 = s1.delete_property_transition(&mut space, Symbol::Key(1));
    let before = space.structure_at(u1).get_slots_size();

    // the add below reuses the freed slot, so deleting again restores the
    // pre-add slot count
    let (u2, off) = u1.add_property_transition(&mut space, Symbol::Key(2), data());
    assert_eq!(off, 0);
    let u3 = u2.delete_property_transition(&mut space, Symbol::Key(2));
    assert_eq!(space.structure_at(u3).get_slots_size(), before);
}

#[test]
fn transit_count_cap_escapes_to_unique() {
    let mut space = Space::new();
    let root = Structure::new_indexed(&mut space, None, false);
    let mut current = root;
    for i in 0..32u32 {
        let (next, off) = current.add_property_transition(&mut space, Symbol::Key(i), data());
        assert_eq!(off, i);
        assert!(!space.structure_at(next).is_unique(), "add {} became unique", i);
        current = next;
    }
    // the 33rd distinct property escapes to a unique structure
    let (last, off) = current.add_property_transition(&mut space, Symbol::Key(32), data());
    assert_eq!(off, 32);
    assert!(space.structure_at(last).is_unique());
    assert_eq!(space.structure_at(last).get_slots_size(), 33);
}

#[test]
fn change_prototype_transition_forces_unique_with_full_table() {
    let mut space = Space::new();
    let root = Structure::new_indexed(&mut space, None, false);
    let (s1, _) = root.add_property_transition(&mut space, Symbol::Key(1), data());
    let (s2, _) = s1.add_property_transition(&mut space, Symbol::Key(2), data());

    let proto = Gc::from_handle(99);
    let m = s2.change_prototype_transition(&mut space, Some(proto));
    assert!(space.structure_at(m).is_unique());
    match space.structure_at(m).prototype() {
        Some(p) => assert_eq!(p.raw, 99),
        None => panic!("prototype missing"),
    }
    // the table, once materialised, contains both properties
    let x = m.get(&mut space, Symbol::Key(1));
    let y = m.get(&mut space, Symbol::Key(2));
    assert_eq!(x.offset, 0);
    assert_eq!(y.offset, 1);
    assert!(space.structure_at(m).has_table());
}

#[test]
fn change_prototype_in_place_on_unforked_unique() {
    let mut space = Space::new();
    let root = Structure::new_unique_indexed(&mut space, None, false);
    let proto = Gc::from_handle(7);
    let m = root.change_prototype_transition(&mut space, Some(proto));
    assert!(Gc::ptr_eq(root, m));
}

#[test]
fn change_indexed_transition_sets_indexed() {
    let mut space = Space::new();
    let root = Structure::new_indexed(&mut space, None, false);
    assert!(!space.structure_at(root).is_indexed());
    let m = root.change_indexed_transition(&mut space);
    assert!(space.structure_at(m).is_indexed());
    assert!(space.structure_at(m).is_unique());
}

#[test]
fn change_extensible_transition_forces_unique() {
    let mut space = Space::new();
    let root = Structure::new_indexed(&mut space, None, false);
    let m = root.change_extensible_transition(&mut space);
    assert!(space.structure_at(m).is_unique());
    // already-unique, unforked structures are reused as they stand
    let m2 = m.change_extensible_transition(&mut space);
    assert!(Gc::ptr_eq(m, m2));
}

#[test]
fn change_attributes_transition_overwrites_attrs() {
    let mut space = Space::new();
    let root = Structure::new_indexed(&mut space, None, false);
    let (s1, _) = root.add_property_transition(&mut space, Symbol::Key(1), data());
    let hidden = AttrSafe::object_data_hidden();
    let m = s1.change_attributes_transition(&mut space, Symbol::Key(1), hidden);
    let e = m.get(&mut space, Symbol::Key(1));
    assert_eq!(e.offset, 0);
    assert_eq!(e.attrs.raw(), hidden.raw());
    assert!(space.structure_at(m).is_unique());
}

#[test]
fn materialisation_five_transitions_deep() {
    let mut space = Space::new();
    let pairs = vec![
        (Symbol::Key(100), MapEntry { offset: 0, attrs: AttrSafe::object_data() }),
        (Symbol::Key(101), MapEntry { offset: 1, attrs: AttrSafe::object_data() }),
    ];
    let base = Structure::new_(&mut space, &pairs);
    assert!(space.structure_at(base).has_table());

    let mut current = base;
    for i in 0..5u32 {
        let (next, _) = current.add_property_transition(&mut space, Symbol::Key(i), data());
        current = next;
    }
    assert!(!space.structure_at(current).has_table());
    let had = Structure::allocate_table_if_needed(&mut space, current);
    assert!(had);
    assert!(space.structure_at(current).has_table());
    // ancestor entries plus the five deltas
    assert_eq!(space.structure_at(current).get_slots_size(), 7);
    for i in 0..5u32 {
        let e = current.get(&mut space, Symbol::Key(i));
        assert_eq!(e.offset, 2 + i);
    }
    assert_eq!(current.get(&mut space, Symbol::Key(100)).offset, 0);
    assert_eq!(current.get(&mut space, Symbol::Key(101)).offset, 1);
}

#[test]
fn materialising_twice_is_a_no_op() {
    let mut space = Space::new();
    let root = Structure::new_indexed(&mut space, None, false);
    let (s1, _) = root.add_property_transition(&mut space, Symbol::Key(1), data());
    let u = s1.change_prototype_transition(&mut space, None);
    let first = Structure::allocate_table_if_needed(&mut space, u);
    assert!(first);
    assert!(space.structure_at(u).has_table());
    let count_before = space.structure_count();
    let second = Structure::allocate_table_if_needed(&mut space, u);
    assert!(second);
    assert_eq!(space.structure_count(), count_before);
}

#[test]
fn pristine_root_reports_no_table_needed() {
    let mut space = Space::new();
    let root = Structure::new_indexed(&mut space, None, false);
    assert!(!Structure::allocate_table_if_needed(&mut space, root));
    assert!(root.get(&mut space, Symbol::Key(1)).is_not_found());
}

#[test]
fn get_own_property_names_filters_enumerable() {
    let mut space = Space::new();
    let root = Structure::new_indexed(&mut space, None, false);
    let (s1, _) = root.add_property_transition(&mut space, Symbol::Key(1), data());
    let (s2, _) =
        s1.add_property_transition(&mut space, Symbol::Key(2), AttrSafe::object_data_hidden());

    let all = s2.get_own_property_names(&mut space, true);
    assert_eq!(all.len(), 2);
    let only_enum = s2.get_own_property_names(&mut space, false);
    assert_eq!(only_enum.len(), 1);
    assert_eq!(only_enum[0].0, Symbol::Key(1));
    assert_eq!(only_enum[0].1, 0);
}

#[test]
fn new_from_point_reuses_shared_and_forks_unique() {
    let mut space = Space::new();
    let shared = Structure::new_indexed(&mut space, None, false);
    let p1 = Structure::new_from_point(&mut space, shared);
    assert!(Gc::ptr_eq(shared, p1));

    let unique = Structure::new_unique_indexed(&mut space, None, false);
    let p2 = Structure::new_from_point(&mut space, unique);
    assert!(!Gc::ptr_eq(unique, p2));
    assert!(space.structure_at(p2).is_unique());
}

#[test]
fn change_prototype_with_no_transition_edits_in_place() {
    let mut space = Space::new();
    let root = Structure::new_indexed(&mut space, None, false);
    let proto = Gc::from_handle(5);
    let same = root.change_prototype_with_no_transition(&mut space, proto);
    assert!(Gc::ptr_eq(root, same));
    match space.structure_at(root).prototype() {
        Some(p) => assert_eq!(p.raw, 5),
        None => panic!("prototype missing"),
    }
}

#[test]
fn structure_ids_are_assigned_externally() {
    let mut space = Space::new();
    let root = Structure::new_indexed(&mut space, None, false);
    assert_eq!(space.structure_at(root).id(), 0);
    space.set_structure_id(root, 41);
    assert_eq!(space.structure_at(root).id(), 41);
    assert!(space.structure_at(root).is_shaped());
}

#[test]
fn unique_add_edits_in_place_until_flattened() {
    let mut space = Space::new();
    let root = Structure::new_unique_indexed(&mut space, None, false);
    // in place while unforked
    let (u1, off1) = root.add_property_transition(&mut space, Symbol::Key(1), data());
    assert!(Gc::ptr_eq(root, u1));
    assert_eq!(off1, 0);
    // after flattening, the next transition forks instead
    space.flatten(u1);
    let count = space.structure_count();
    let m = u1.change_prototype_transition(&mut space, Some(Gc::from_handle(3)));
    assert!(!Gc::ptr_eq(u1, m));
    assert_eq!(space.structure_count(), count + 1);
    // the fork carries the property along
    assert_eq!(m.get(&mut space, Symbol::Key(1)).offset, 0);
}

#[test]
fn flatten_is_idempotent() {
    let mut space = Space::new();
    let u = Structure::new_unique_indexed(&mut space, None, false);
    space.flatten(u);
    let count = space.structure_count();
    // flattening again changes nothing
    space.flatten(u);
    assert_eq!(space.structure_count(), count);
    let (m, _) = u.add_property_transition(&mut space, Symbol::Key(1), data());
    assert!(!Gc::ptr_eq(u, m));
    // and the original is left without the property
    assert!(u.get(&mut space, Symbol::Key(1)).is_not_found());
    assert!(!m.get(&mut space, Symbol::Key(1)).is_not_found());
}

#[test]
fn unique_root_with_prototype() {
    let mut space = Space::new();
    let proto = Gc::from_handle(12);
    let u = Structure::new_unique_with_proto(&mut space, Some(proto), true);
    assert!(space.structure_at(u).is_unique());
    assert!(space.structure_at(u).is_indexed());
    assert!(!space.structure_at(u).has_table());
    assert_eq!(space.structure_at(u).get_slots_size(), 0);
    match space.structure_at(u).prototype() {
        Some(p) => assert_eq!(p.raw, 12),
        None => panic!("prototype missing"),
    }
}

#[test]
fn root_from_no_table_is_empty() {
    let mut space = Space::new();
    let r = Structure::new_from_table(&mut space, None, None, false, false);
    assert!(!space.structure_at(r).has_table());
    assert_eq!(space.structure_at(r).get_slots_size(), 0);
    assert!(r.get(&mut space, Symbol::Key(1)).is_not_found());
}
