use starlight::attributes::AttrSafe;
use starlight::builder::StructureBuilder;
use starlight::structure::{MapEntry, Space, Structure};
use starlight::symbol::Symbol;

#[test]
fn builder_assigns_sequential_offsets() {
    let mut space = Space::new();
    let mut b = StructureBuilder::new(None);
    let a = b.add(Symbol::Key(1), AttrSafe::object_data());
    assert_eq!(a.offset, 0);
    let bb = b.add(Symbol::Key(2), AttrSafe::object_data());
    assert_eq!(bb.offset, 1);
    let c = b.add(Symbol::Key(3), AttrSafe::object_data());
    assert_eq!(c.offset, 2);
    let built = b.build(&mut space, false, false);
    assert!(!space.structure_at(built).is_unique());
    assert!(!space.structure_at(built).is_indexed());
    assert_eq!(built.get(&mut space, Symbol::Key(1)).offset, 0);
    assert_eq!(built.get(&mut space, Symbol::Key(2)).offset, 1);
    assert_eq!(built.get(&mut space, Symbol::Key(3)).offset, 2);
    assert_eq!(space.structure_at(built).get_slots_size(), 3);
}

#[test]
fn builder_find_and_override() {
    let mut b = StructureBuilder::new(None);
    assert!(b.find(Symbol::Key(1)).is_not_found());
    b.add(Symbol::Key(1), AttrSafe::object_data());
    let found = b.find(Symbol::Key(1));
    assert!(!found.is_not_found());
    assert_eq!(found.offset, 0);
    b.override_property(
        Symbol::Key(1),
        MapEntry { offset: 0, attrs: AttrSafe::object_data_hidden() },
    );
    let over = b.find(Symbol::Key(1));
    assert_eq!(over.attrs.raw(), AttrSafe::object_data_hidden().raw());
    assert_eq!(over.offset, 0);
}

#[test]
fn builder_add_with_index_takes_chosen_slots() {
    let mut space = Space::new();
    let mut b = StructureBuilder::new(None);
    // offsets may be handed out in any order; they must fill up by build
    b.add_with_index(Symbol::Key(8), 1, AttrSafe::object_data());
    b.add_with_index(Symbol::Key(9), 0, AttrSafe::object_data());
    let built = b.build(&mut space, true, false);
    assert!(space.structure_at(built).is_unique());
    assert_eq!(built.get(&mut space, Symbol::Key(9)).offset, 0);
    assert_eq!(built.get(&mut space, Symbol::Key(8)).offset, 1);
}

#[test]
fn builder_allows_gaps_before_build() {
    let mut b = StructureBuilder::new(None);
    b.add_with_index(Symbol::Key(5), 7, AttrSafe::object_data());
    let found = b.find(Symbol::Key(5));
    assert!(!found.is_not_found());
    assert_eq!(found.offset, 7);
    assert!(b.find(Symbol::Key(6)).is_not_found());
}

fn capacity_for(space: &mut Space, n: u32) -> usize {
    let root = Structure::new_indexed(space, None, false);
    let mut current = root;
    for i in 0..n {
        let (next, _) = current.add_property_transition(space, Symbol::Key(i), AttrSafe::object_data());
        current = next;
    }
    current.storage_capacity(space)
}

#[test]
fn storage_capacity_policy() {
    let mut space = Space::new();
    assert_eq!(capacity_for(&mut space, 0), 0);
    assert_eq!(capacity_for(&mut space, 1), 8);
    assert_eq!(capacity_for(&mut space, 7), 8);
    assert_eq!(capacity_for(&mut space, 8), 8);
    assert_eq!(capacity_for(&mut space, 9), 16);
    assert_eq!(capacity_for(&mut space, 16), 16);
    assert_eq!(capacity_for(&mut space, 17), 32);
    assert_eq!(capacity_for(&mut space, 31), 32);
}

#[test]
fn storage_capacity_is_monotone_over_growth() {
    let mut space = Space::new();
    let root = Structure::new_indexed(&mut space, None, false);
    let mut current = root;
    let mut last = current.storage_capacity(&space);
    for i in 0..20u32 {
        let (next, _) =
            current.add_property_transition(&mut space, Symbol::Key(i), AttrSafe::object_data());
        current = next;
        let cap = current.storage_capacity(&space);
        assert!(cap >= last);
        last = cap;
    }
}
