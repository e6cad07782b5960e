use starlight::array::{GcArray, GcVec, RawVec};
use starlight::attributes::AttrSafe;
use starlight::deleted::{DeletedEntry, DeletedEntryHolder};
use starlight::structure::MapEntry;
use starlight::symbol::Symbol;
use starlight::table::PropTable;
use starlight::transitions::{Transitions, TransitionsTable};

#[test]
fn transitions_table_pair_and_promotion() {
    let mut t = TransitionsTable::new(true, false);
    assert!(t.is_enabled());
    assert!(!t.is_indexed());
    assert!(!t.is_enabled_unique_transition());
    assert!(t.find(Symbol::Key(1), AttrSafe::object_data()).is_none());

    t.insert(Symbol::Key(1), AttrSafe::object_data(), 10);
    assert_eq!(t.find(Symbol::Key(1), AttrSafe::object_data()), Some(10));
    // same name, different attributes: a different key
    assert!(t.find(Symbol::Key(1), AttrSafe::object_data_hidden()).is_none());

    // second insert promotes the single pair to a table
    t.insert(Symbol::Key(2), AttrSafe::object_data(), 11);
    assert_eq!(t.find(Symbol::Key(1), AttrSafe::object_data()), Some(10));
    assert_eq!(t.find(Symbol::Key(2), AttrSafe::object_data()), Some(11));
    assert_eq!(t.find(Symbol::Key(3), AttrSafe::object_data()), None);

    t.enable_unique_transition();
    assert!(t.is_enabled_unique_transition());
    t.set_indexed(true);
    assert!(t.is_indexed());
    t.set_enabled(false);
    assert!(!t.is_enabled());
    // the successors survive the flag edits
    assert_eq!(t.find(Symbol::Key(2), AttrSafe::object_data()), Some(11));
}

#[test]
fn packed_transitions_match_the_plain_store() {
    let mut t = Transitions::new(true, true);
    assert!(t.is_enabled());
    assert!(t.is_indexed());
    assert!(!t.is_enabled_unique_transition());

    t.insert(Symbol::Key(1), AttrSafe::object_data(), 20);
    assert_eq!(t.find(Symbol::Key(1), AttrSafe::object_data()), Some(20));
    t.insert(Symbol::Key(2), AttrSafe::object_data(), 21);
    t.insert(Symbol::Key(3), AttrSafe::object_data(), 22);
    assert_eq!(t.find(Symbol::Key(1), AttrSafe::object_data()), Some(20));
    assert_eq!(t.find(Symbol::Key(2), AttrSafe::object_data()), Some(21));
    assert_eq!(t.find(Symbol::Key(3), AttrSafe::object_data()), Some(22));
    assert_eq!(t.find(Symbol::Key(4), AttrSafe::object_data()), None);

    t.set_indexed(false);
    assert!(!t.is_indexed());
    assert!(t.is_enabled());
    t.enable_unique_transition();
    assert!(t.is_enabled_unique_transition());
    t.set_enabled(false);
    assert!(!t.is_enabled());
    assert_eq!(t.find(Symbol::Key(3), AttrSafe::object_data()), Some(22));
}

#[test]
fn prop_table_set_get_remove() {
    let mut t = PropTable::new();
    assert_eq!(t.len(), 0);
    assert!(t.get(Symbol::Key(1)).is_none());
    t.set(Symbol::Key(1), MapEntry { offset: 0, attrs: AttrSafe::object_data() });
    t.set(Symbol::Key(2), MapEntry { offset: 1, attrs: AttrSafe::object_data() });
    assert_eq!(t.len(), 2);
    assert_eq!(t.get(Symbol::Key(1)).unwrap().offset, 0);
    // overwriting keeps the length
    t.set(Symbol::Key(1), MapEntry { offset: 0, attrs: AttrSafe::object_data_hidden() });
    assert_eq!(t.len(), 2);
    assert_eq!(t.get(Symbol::Key(1)).unwrap().attrs.raw(), AttrSafe::object_data_hidden().raw());
    t.remove(Symbol::Key(1));
    assert_eq!(t.len(), 1);
    assert!(t.get(Symbol::Key(1)).is_none());
    let copy = t.duplicate();
    assert_eq!(copy.len(), 1);
    assert_eq!(copy.get(Symbol::Key(2)).unwrap().offset, 1);
}

#[test]
fn deleted_holder_stacks_offsets() {
    let mut nodes: Vec<DeletedEntry> = Vec::new();
    let mut h = DeletedEntryHolder::new();
    assert!(h.empty());
    h.push(&mut nodes, 4);
    h.push(&mut nodes, 9);
    assert_eq!(h.size(), 2);
    assert!(!h.empty());
    // last in, first out
    assert_eq!(h.pop(&nodes), 9);
    assert_eq!(h.pop(&nodes), 4);
    assert!(h.empty());
}

#[test]
fn deleted_holders_share_tails() {
    let mut nodes: Vec<DeletedEntry> = Vec::new();
    let mut a = DeletedEntryHolder::new();
    a.push(&mut nodes, 1);
    let mut b = a;
    b.push(&mut nodes, 2);
    // popping the copy leaves the original stack alone
    assert_eq!(b.pop(&nodes), 2);
    assert_eq!(b.pop(&nodes), 1);
    assert_eq!(a.size(), 1);
    assert_eq!(a.pop(&nodes), 1);
}

#[test]
fn gc_array_fills_and_updates() {
    let mut a: GcArray<u32> = GcArray::new(4, 7);
    assert_eq!(a.len(), 4);
    assert_eq!(*a.at(2), 7);
    a.set(2, 9);
    assert_eq!(*a.at(2), 9);
    assert_eq!(*a.at(3), 7);
}

#[test]
fn raw_vec_reports_capacity_and_length() {
    let r: RawVec<u8> = RawVec::new(12);
    assert_eq!(r.len(), 0);
}

#[test]
fn gc_vec_push_pop_insert() {
    let mut v: GcVec<u32> = GcVec::new(0);
    assert_eq!(v.len(), 0);
    assert!(v.pop().is_none());
    v.push(1);
    v.push(3);
    v.insert(1, 2);
    assert_eq!(v.len(), 3);
    assert_eq!(*v.at(0), 1);
    assert_eq!(*v.at(1), 2);
    assert_eq!(*v.at(2), 3);
    assert_eq!(v.pop(), Some(3));
    v.reserve(10);
    assert_eq!(v.len(), 2);
    v.shrink_to_fit();
    assert_eq!(v.len(), 2);
    v.clear();
    assert_eq!(v.len(), 0);
}
