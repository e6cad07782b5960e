//! The transition store: a space-optimised mapping from `(name, attributes)`
//! to the successor structure reached by adding that property.
//!
//! The store has three internal shapes — empty, a single inline pair, and a
//! table — and is promoted from pair to table on the first insert that would
//! create a second entry. It also carries the `enabled` flag (off means the
//! owning structure is unique), the `indexed` flag, and the one-shot
//! `unique transition` flag that marks a unique structure as already forked.
//!
//! [`TransitionsTable`] keeps the flags as plain booleans; [`Transitions`]
//! packs them into one byte.

use vstd::prelude::*;

use crate::attributes::AttrSafe;
use crate::cell::{Cell, CellRef, Gc, Trace, Tracer};
use crate::symbol::Symbol;

verus! {

/// The key of a transition: property name plus raw attribute word. Two adds
/// of the same name with different attributes reach distinct successors.
#[derive(Clone, Copy, PartialEq, Eq, Structural, Debug, Hash)]
pub struct TransitionKey {
    pub name: Symbol,
    pub attrs: u32,
}

/// The map denoted by a transition entry list: later entries win, though a
/// well-formed table never repeats a key.
pub open spec fn trans_map_of(s: Seq<(TransitionKey, u32)>) -> Map<TransitionKey, u32>
    decreases s.len(),
{
    if s.len() == 0 {
        Map::empty()
    } else {
        trans_map_of(s.drop_last()).insert(s.last().0, s.last().1)
    }
}

/// No transition key occurs twice.
pub open spec fn distinct_keys(s: Seq<(TransitionKey, u32)>) -> bool {
    forall|i: int, j: int| 0 <= i < j < s.len() ==> (#[trigger] s[i]).0 != (#[trigger] s[j]).0
}

/// A key is in the map iff some entry carries it.
pub proof fn lemma_trans_map_of_contains(s: Seq<(TransitionKey, u32)>, k: TransitionKey)
    ensures
        trans_map_of(s).contains_key(k) <==> exists|i: int|
            0 <= i < s.len() && (#[trigger] s[i]).0 == k,
    decreases s.len(),
{
    if s.len() > 0 {
        lemma_trans_map_of_contains(s.drop_last(), k);
        if s.last().0 == k {
            assert(s[s.len() - 1].0 == k);
        } else if trans_map_of(s).contains_key(k) {
            let i = choose|i: int|
                0 <= i < s.drop_last().len() && (#[trigger] s.drop_last()[i]).0 == k;
            assert(s[i].0 == k);
        } else {
            assert forall|i: int| 0 <= i < s.len() implies (#[trigger] s[i]).0 != k by {
                if i < s.len() - 1 {
                    assert(s.drop_last()[i] == s[i]);
                }
            }
        }
    }
}

/// With distinct keys, each entry gives the map's value at its key.
pub proof fn lemma_trans_map_of_get(s: Seq<(TransitionKey, u32)>, i: int)
    requires
        distinct_keys(s),
        0 <= i < s.len(),
    ensures
        trans_map_of(s).contains_key(s[i].0),
        trans_map_of(s)[s[i].0] == s[i].1,
    decreases s.len(),
{
    if i == s.len() - 1 {
        lemma_trans_map_of_contains(s, s[i].0);
    } else {
        assert forall|a: int, b: int| 0 <= a < b < s.drop_last().len() implies (
        #[trigger] s.drop_last()[a]).0 != (#[trigger] s.drop_last()[b]).0 by {
            assert(s.drop_last()[a] == s[a]);
            assert(s.drop_last()[b] == s[b]);
        }
        assert(s.drop_last()[i] == s[i]);
        lemma_trans_map_of_get(s.drop_last(), i);
        assert(s[s.len() - 1].0 != s[i].0);
    }
}

/// Overwriting the entry that carries a key updates the map at that key.
proof fn lemma_trans_map_of_update(s: Seq<(TransitionKey, u32)>, i: int, v: u32)
    requires
        distinct_keys(s),
        0 <= i < s.len(),
    ensures
        trans_map_of(s.update(i, (s[i].0, v))) =~= trans_map_of(s).insert(s[i].0, v),
        distinct_keys(s.update(i, (s[i].0, v))),
    decreases s.len(),
{
    let k = s[i].0;
    let t = s.update(i, (k, v));
    assert forall|a: int, b: int| 0 <= a < b < t.len() implies (#[trigger] t[a]).0 != (
    #[trigger] t[b]).0 by {
        assert(t[a].0 == s[a].0);
        assert(t[b].0 == s[b].0);
    }
    if i == s.len() - 1 {
        assert(t.drop_last() =~= s.drop_last());
    } else {
        assert forall|a: int, b: int| 0 <= a < b < s.drop_last().len() implies (
        #[trigger] s.drop_last()[a]).0 != (#[trigger] s.drop_last()[b]).0 by {
            assert(s.drop_last()[a] == s[a]);
            assert(s.drop_last()[b] == s[b]);
        }
        assert(t.drop_last() =~= s.drop_last().update(i, (k, v)));
        assert(s.drop_last()[i] == s[i]);
        lemma_trans_map_of_update(s.drop_last(), i, v);
        assert(s.last().0 != k);
    }
}

/// Appending an entry with a fresh key inserts it into the map.
proof fn lemma_trans_map_of_push(s: Seq<(TransitionKey, u32)>, k: TransitionKey, v: u32)
    requires
        distinct_keys(s),
        forall|i: int| 0 <= i < s.len() ==> (#[trigger] s[i]).0 != k,
    ensures
        trans_map_of(s.push((k, v))) =~= trans_map_of(s).insert(k, v),
        distinct_keys(s.push((k, v))),
{
    let t = s.push((k, v));
    assert(t.drop_last() =~= s);
    assert forall|a: int, b: int| 0 <= a < b < t.len() implies (#[trigger] t[a]).0 != (
    #[trigger] t[b]).0 by {
        if b < t.len() - 1 {
            assert(t[a] == s[a] && t[b] == s[b]);
        } else {
            assert(t[a] == s[a]);
        }
    }
}

/// The table shape of a transition store: keys distinct.
pub struct TransMap {
    entries: Vec<(TransitionKey, u32)>,
}

impl View for TransMap {
    type V = Map<TransitionKey, u32>;

    closed spec fn view(&self) -> Map<TransitionKey, u32> {
        trans_map_of(self.entries@)
    }
}

impl TransMap {
    /// Distinct keys.
    pub closed spec fn wf(&self) -> bool {
        distinct_keys(self.entries@)
    }

    /// The raw entry list, for iterating successors.
    pub closed spec fn entries_seq(&self) -> Seq<(TransitionKey, u32)> {
        self.entries@
    }

    /// Each listed pair is a binding of the map.
    pub proof fn lemma_enumeration(&self)
        requires
            self.wf(),
        ensures
            forall|i: int|
                0 <= i < self.entries_seq().len() ==> self@.contains_key(
                    (#[trigger] self.entries_seq()[i]).0,
                ) && self@[self.entries_seq()[i].0] == self.entries_seq()[i].1,
    {
        assert forall|i: int| 0 <= i < self.entries_seq().len() implies self@.contains_key(
            (#[trigger] self.entries_seq()[i]).0,
        ) && self@[self.entries_seq()[i].0] == self.entries_seq()[i].1 by {
            lemma_trans_map_of_get(self.entries@, i);
        }
    }

    /// Fresh empty table.
    pub fn new() -> (r: Self)
        ensures
            r@ =~= Map::<TransitionKey, u32>::empty(),
            r.wf(),
            r.entries_seq().len() == 0,
    {
        TransMap { entries: Vec::new() }
    }

    /// Number of entries.
    pub fn len(&self) -> (r: usize)
        ensures
            r == self.entries_seq().len(),
    {
        self.entries.len()
    }

    /// The entry at a list position.
    pub fn entry_at(&self, i: usize) -> (r: (TransitionKey, u32))
        requires
            i < self.entries_seq().len(),
        ensures
            r == self.entries_seq()[i as int],
    {
        self.entries[i]
    }

    /// Look a key up.
    pub fn get(&self, key: TransitionKey) -> (r: Option<u32>)
        requires
            self.wf(),
        ensures
            match r {
                Some(c) => self@.contains_key(key) && self@[key] == c,
                None => !self@.contains_key(key),
            },
    {
        let n = self.entries.len();
        let mut i: usize = 0;
        while i < n
            invariant
                n == self.entries@.len(),
                0 <= i <= n,
                self.wf(),
                forall|j: int| 0 <= j < i ==> (#[trigger] self.entries@[j]).0 != key,
            decreases n - i,
        {
            let (k, v) = self.entries[i];
            if k == key {
                proof {
                    lemma_trans_map_of_get(self.entries@, i as int);
                }
                return Some(v);
            }
            i = i + 1;
        }
        proof {
            lemma_trans_map_of_contains(self.entries@, key);
        }
        None
    }

    /// Insert or overwrite a key.
    pub fn set(&mut self, key: TransitionKey, succ: u32)
        requires
            old(self).wf(),
        ensures
            final(self).wf(),
            final(self)@ =~= old(self)@.insert(key, succ),
    {
        let n = self.entries.len();
        let mut i: usize = 0;
        while i < n
            invariant
                n == self.entries@.len(),
                0 <= i <= n,
                self.wf(),
                self == old(self),
                forall|j: int| 0 <= j < i ==> (#[trigger] self.entries@[j]).0 != key,
            decreases n - i,
        {
            let (k, _) = self.entries[i];
            if k == key {
                proof {
                    lemma_trans_map_of_update(self.entries@, i as int, succ);
                }
                self.entries[i] = (key, succ);
                return ;
            }
            i = i + 1;
        }
        proof {
            lemma_trans_map_of_push(self.entries@, key, succ);
        }
        self.entries.push((key, succ));
    }
}

/// The internal shape of a transition store.
pub enum Transition {
    Empty,
    Pair(TransitionKey, u32),
    Table(TransMap),
}

/// A transition store with plain boolean flags.
pub struct TransitionsTable {
    var: Transition,
    enabled: bool,
    unique: bool,
    indexed: bool,
}

impl TransitionsTable {
    /// The mapping the store holds.
    pub closed spec fn view(&self) -> Map<TransitionKey, u32> {
        match self.var {
            Transition::Empty => Map::empty(),
            Transition::Pair(k, s) => Map::empty().insert(k, s),
            Transition::Table(ref m) => m@,
        }
    }

    /// The successors the store holds, in listing order.
    pub closed spec fn successors(&self) -> Seq<u32> {
        match self.var {
            Transition::Empty => Seq::empty(),
            Transition::Pair(_, s) => seq![s],
            Transition::Table(ref m) => m.entries_seq().map(|i: int, e: (TransitionKey, u32)| e.1),
        }
    }

    /// Internal consistency of the table shape.
    pub closed spec fn wf(&self) -> bool {
        match self.var {
            Transition::Table(ref m) => m.wf(),
            _ => true,
        }
    }

    /// Transitions are enabled (the owning structure is shared).
    pub closed spec fn spec_is_enabled(&self) -> bool {
        self.enabled
    }

    /// The owning structure has integer-keyed elements.
    pub closed spec fn spec_is_indexed(&self) -> bool {
        self.indexed
    }

    /// The owning unique structure has already been forked once.
    pub closed spec fn spec_unique_transition(&self) -> bool {
        self.unique
    }

    /// Fresh store with no successors.
    pub fn new(enabled: bool, indexed: bool) -> (r: Self)
        ensures
            r@ =~= Map::<TransitionKey, u32>::empty(),
            r.wf(),
            r.spec_is_enabled() == enabled,
            r.spec_is_indexed() == indexed,
            !r.spec_unique_transition(),
    {
        TransitionsTable { var: Transition::Empty, unique: false, indexed, enabled }
    }

    /// Set or clear the indexed flag.
    pub fn set_indexed(&mut self, indexed: bool)
        ensures
            final(self)@ == old(self)@,
            final(self).wf() == old(self).wf(),
            final(self).successors() == old(self).successors(),
            final(self).spec_is_enabled() == old(self).spec_is_enabled(),
            final(self).spec_is_indexed() == indexed,
            final(self).spec_unique_transition() == old(self).spec_unique_transition(),
    {
        self.indexed = indexed;
    }

    /// Set or clear the enabled flag.
    pub fn set_enabled(&mut self, enabled: bool)
        ensures
            final(self)@ == old(self)@,
            final(self).wf() == old(self).wf(),
            final(self).successors() == old(self).successors(),
            final(self).spec_is_enabled() == enabled,
            final(self).spec_is_indexed() == old(self).spec_is_indexed(),
            final(self).spec_unique_transition() == old(self).spec_unique_transition(),
    {
        self.enabled = enabled;
    }

    /// True iff the owning unique structure has already been forked.
    pub fn is_enabled_unique_transition(&self) -> (r: bool)
        ensures
            r == self.spec_unique_transition(),
    {
        self.unique
    }

    /// Mark the owning unique structure as forked.
    pub fn enable_unique_transition(&mut self)
        ensures
            final(self)@ == old(self)@,
            final(self).wf() == old(self).wf(),
            final(self).successors() == old(self).successors(),
            final(self).spec_is_enabled() == old(self).spec_is_enabled(),
            final(self).spec_is_indexed() == old(self).spec_is_indexed(),
            final(self).spec_unique_transition(),
            old(self).spec_unique_transition() ==> *final(self) == *old(self),
    {
        self.unique = true;
    }

    /// Record a successor under `(name, attrs)`, promoting the single pair
    /// to a table when a second entry arrives.
    pub fn insert(&mut self, name: Symbol, attrs: AttrSafe, map: u32)
        requires
            old(self).wf(),
        ensures
            final(self).wf(),
            final(self)@ =~= old(self)@.insert(TransitionKey { name, attrs: attrs.raw }, map),
            final(self).spec_is_enabled() == old(self).spec_is_enabled(),
            final(self).spec_is_indexed() == old(self).spec_is_indexed(),
            final(self).spec_unique_transition() == old(self).spec_unique_transition(),
    {
        let key = TransitionKey { name, attrs: attrs.raw() };
        match &self.var {
            Transition::Empty => {
                self.var = Transition::Pair(key, map);
            },
            Transition::Pair(k0, s0) => {
                let k0 = *k0;
                let s0 = *s0;
                let mut table = TransMap::new();
                table.set(k0, s0);
                table.set(key, map);
                self.var = Transition::Table(table);
            },
            Transition::Table(_) => {
                match &mut self.var {
                    Transition::Table(m) => {
                        m.set(key, map);
                    },
                    _ => {
                        proof {
                            assert(false);
                        }
                    },
                }
            },
        }
    }

    /// Look a successor up under `(name, attrs)`.
    pub fn find(&self, name: Symbol, attrs: AttrSafe) -> (r: Option<u32>)
        requires
            self.wf(),
        ensures
            match r {
                Some(c) => self@.contains_key(TransitionKey { name, attrs: attrs.raw })
                    && self@[TransitionKey { name, attrs: attrs.raw }] == c,
                None => !self@.contains_key(TransitionKey { name, attrs: attrs.raw }),
            },
    {
        let key = TransitionKey { name, attrs: attrs.raw() };
        match &self.var {
            Transition::Empty => None,
            Transition::Pair(k0, s0) => {
                if *k0 == key {
                    Some(*s0)
                } else {
                    None
                }
            },
            Transition::Table(m) => m.get(key),
        }
    }

    /// True iff transitions are enabled.
    pub fn is_enabled(&self) -> (r: bool)
        ensures
            r == self.spec_is_enabled(),
    {
        self.enabled
    }

    /// True iff the owning structure has integer-keyed elements.
    pub fn is_indexed(&self) -> (r: bool)
        ensures
            r == self.spec_is_indexed(),
    {
        self.indexed
    }

    /// The successors the store holds, for tracing.
    pub fn successors_vec(&self) -> (r: Vec<u32>)
        ensures
            r@ == self.successors(),
    {
        let mut out: Vec<u32> = Vec::new();
        match &self.var {
            Transition::Empty => {},
            Transition::Pair(_, s0) => {
                out.push(*s0);
                proof {
                    assert(out@ =~= self.successors());
                }
            },
            Transition::Table(m) => {
                let n = m.len();
                let mut i: usize = 0;
                while i < n
                    invariant
                        n == m.entries_seq().len(),
                        0 <= i <= n,
                        out@ =~= m.entries_seq().subrange(0, i as int).map(
                            |j: int, e: (TransitionKey, u32)| e.1,
                        ),
                    decreases n - i,
                {
                    let (_, s) = m.entry_at(i);
                    out.push(s);
                    proof {
                        assert(m.entries_seq().subrange(0, i + 1 as int).drop_last()
                            =~= m.entries_seq().subrange(0, i as int));
                        assert(out@ =~= m.entries_seq().subrange(0, i + 1 as int).map(
                            |j: int, e: (TransitionKey, u32)| e.1,
                        ));
                    }
                    i = i + 1;
                }
                proof {
                    assert(m.entries_seq().subrange(0, n as int) =~= m.entries_seq());
                }
            },
        }
        out
    }
}


/// Transition keys own no managed references.
impl Trace for TransitionKey {
    open spec fn owned_refs(&self) -> Seq<CellRef> {
        Seq::empty()
    }

    fn trace<V: Tracer>(&self, tracer: &mut V) {
        proof {
            assert(tracer.visited() + self.owned_refs() =~= tracer.visited());
        }
    }
}

impl Cell for TransitionKey {
    closed spec fn ty_id_spec() -> u64 {
        14
    }

    fn ty_of() -> u64 {
        14
    }

    fn compute_size(&self) -> usize {
        core::mem::size_of::<Self>()
    }

    fn get_typename(&self) -> &'static str {
        "TransitionKey"
    }

    fn get_class_value(&self) -> Option<u32> {
        None
    }

    fn get_structure(&self) -> Option<Gc<crate::structure::Structure>> {
        None
    }
}

/// A transition store owns its cached successors.
impl Trace for TransitionsTable {
    open spec fn owned_refs(&self) -> Seq<CellRef> {
        self.successors().map(|i: int, s: u32| CellRef::Structure(s))
    }

    fn trace<V: Tracer>(&self, tracer: &mut V) {
        let succ = self.successors_vec();
        let ghost base0 = tracer.visited();
        let n = succ.len();
        let mut i: usize = 0;
        while i < n
            invariant
                n == succ@.len(),
                succ@ == self.successors(),
                0 <= i <= n,
                tracer.visited() =~= base0 + self.successors().subrange(0, i as int).map(
                    |j: int, s: u32| CellRef::Structure(s),
                ),
            decreases n - i,
        {
            let s = succ[i];
            tracer.trace(CellRef::Structure(s));
            proof {
                let mapped = |j: int, s: u32| CellRef::Structure(s);
                assert(self.successors().subrange(0, i + 1 as int).drop_last()
                    =~= self.successors().subrange(0, i as int));
                assert(self.successors().subrange(0, i + 1 as int).map(mapped) =~= self.successors(
                ).subrange(0, i as int).map(mapped).push(CellRef::Structure(s)));
            }
            i = i + 1;
        }
        proof {
            assert(self.successors().subrange(0, n as int) =~= self.successors());
            assert(tracer.visited() =~= base0 + self.owned_refs());
        }
    }
}

/// Transitions-enabled bit of the packed store.
pub const MASK_ENABLED: u8 = 1;
/// Already-forked bit of the packed store.
pub const MASK_UNIQUE_TRANSITION: u8 = 2;
/// The store holds a single inline pair.
pub const MASK_HOLD_SINGLE: u8 = 4;
/// The store holds a table.
pub const MASK_HOLD_TABLE: u8 = 8;
/// Indexed bit of the packed store.
pub const MASK_INDEXED: u8 = 16;

/// A transition store with its flags packed into one byte.
pub struct Transitions {
    var: Transition,
    flags: u8,
}

impl Transitions {
    /// The mapping the store holds.
    pub closed spec fn view(&self) -> Map<TransitionKey, u32> {
        match self.var {
            Transition::Empty => Map::empty(),
            Transition::Pair(k, s) => Map::empty().insert(k, s),
            Transition::Table(ref m) => m@,
        }
    }

    /// Transitions are enabled.
    pub closed spec fn spec_is_enabled(&self) -> bool {
        self.flags & MASK_ENABLED != 0
    }

    /// The owning structure has integer-keyed elements.
    pub closed spec fn spec_is_indexed(&self) -> bool {
        self.flags & MASK_INDEXED != 0
    }

    /// The owning unique structure has already been forked once.
    pub closed spec fn spec_unique_transition(&self) -> bool {
        self.flags & MASK_UNIQUE_TRANSITION != 0
    }

    /// The shape bits agree with the held shape, and a held table is
    /// well-formed.
    pub closed spec fn wf(&self) -> bool {
        &&& match self.var {
            Transition::Table(ref m) => m.wf(),
            _ => true,
        }
        &&& ((self.flags & MASK_HOLD_SINGLE != 0) <==> self.var is Pair)
        &&& ((self.flags & MASK_HOLD_TABLE != 0) <==> self.var is Table)
    }

    /// Fresh store with no successors.
    pub fn new(enabled: bool, indexed: bool) -> (r: Self)
        ensures
            r@ =~= Map::<TransitionKey, u32>::empty(),
            r.wf(),
            r.spec_is_enabled() == enabled,
            r.spec_is_indexed() == indexed,
            !r.spec_unique_transition(),
    {
        let mut this = Transitions { var: Transition::Empty, flags: 0 };
        proof {
            assert(0u8 & 1 == 0 && 0u8 & 2 == 0 && 0u8 & 4 == 0 && 0u8 & 8 == 0 && 0u8 & 16 == 0)
                by (bit_vector);
        }
        this.set_enabled(enabled);
        this.set_indexed(indexed);
        this
    }

    /// Set or clear the indexed flag.
    pub fn set_indexed(&mut self, indexed: bool)
        ensures
            final(self)@ == old(self)@,
            final(self).wf() == old(self).wf(),
            final(self).spec_is_enabled() == old(self).spec_is_enabled(),
            final(self).spec_is_indexed() == indexed,
            final(self).spec_unique_transition() == old(self).spec_unique_transition(),
    {
        let f = self.flags;
        if indexed {
            self.flags = f | MASK_INDEXED;
            proof {
                assert((f | 16u8) & 16 != 0 && (f | 16u8) & 1 == f & 1 && (f | 16u8) & 2 == f & 2
                    && (f | 16u8) & 4 == f & 4 && (f | 16u8) & 8 == f & 8) by (bit_vector);
            }
        } else {
            self.flags = f & !MASK_INDEXED;
            proof {
                assert((f & !16u8) & 16 == 0 && (f & !16u8) & 1 == f & 1 && (f & !16u8) & 2 == f
                    & 2 && (f & !16u8) & 4 == f & 4 && (f & !16u8) & 8 == f & 8) by (bit_vector);
            }
        }
    }

    /// Set or clear the enabled flag.
    pub fn set_enabled(&mut self, enabled: bool)
        ensures
            final(self)@ == old(self)@,
            final(self).wf() == old(self).wf(),
            final(self).spec_is_enabled() == enabled,
            final(self).spec_is_indexed() == old(self).spec_is_indexed(),
            final(self).spec_unique_transition() == old(self).spec_unique_transition(),
    {
        let f = self.flags;
        if enabled {
            self.flags = f | MASK_ENABLED;
            proof {
                assert((f | 1u8) & 1 != 0 && (f | 1u8) & 16 == f & 16 && (f | 1u8) & 2 == f & 2 && (
                f | 1u8) & 4 == f & 4 && (f | 1u8) & 8 == f & 8) by (bit_vector);
            }
        } else {
            self.flags = f & !MASK_ENABLED;
            proof {
                assert((f & !1u8) & 1 == 0 && (f & !1u8) & 16 == f & 16 && (f & !1u8) & 2 == f & 2
                    && (f & !1u8) & 4 == f & 4 && (f & !1u8) & 8 == f & 8) by (bit_vector);
            }
        }
    }

    /// True iff the owning unique structure has already been forked.
    pub fn is_enabled_unique_transition(&self) -> (r: bool)
        ensures
            r == self.spec_unique_transition(),
    {
        (self.flags & MASK_UNIQUE_TRANSITION) != 0
    }

    /// Mark the owning unique structure as forked.
    pub fn enable_unique_transition(&mut self)
        ensures
            final(self)@ == old(self)@,
            final(self).wf() == old(self).wf(),
            final(self).spec_is_enabled() == old(self).spec_is_enabled(),
            final(self).spec_is_indexed() == old(self).spec_is_indexed(),
            final(self).spec_unique_transition(),
    {
        let f = self.flags;
        self.flags = f | MASK_UNIQUE_TRANSITION;
        proof {
            assert((f | 2u8) & 2 != 0 && (f | 2u8) & 1 == f & 1 && (f | 2u8) & 16 == f & 16 && (f
                | 2u8) & 4 == f & 4 && (f | 2u8) & 8 == f & 8) by (bit_vector);
        }
    }

    /// Record a successor under `(name, attrs)`, promoting the single pair
    /// to a table when a second entry arrives.
    pub fn insert(&mut self, name: Symbol, attrs: AttrSafe, map: u32)
        requires
            old(self).wf(),
        ensures
            final(self).wf(),
            final(self)@ =~= old(self)@.insert(TransitionKey { name, attrs: attrs.raw }, map),
            final(self).spec_is_enabled() == old(self).spec_is_enabled(),
            final(self).spec_is_indexed() == old(self).spec_is_indexed(),
            final(self).spec_unique_transition() == old(self).spec_unique_transition(),
    {
        let key = TransitionKey { name, attrs: attrs.raw() };
        if (self.flags & MASK_HOLD_SINGLE) != 0 {
            match &self.var {
                Transition::Pair(k0, s0) => {
                    let k0 = *k0;
                    let s0 = *s0;
                    let mut table = TransMap::new();
                    table.set(k0, s0);
                    self.var = Transition::Table(table);
                },
                _ => {
                    proof {
                        assert(false);
                    }
                },
            }
            let f = self.flags;
            self.flags = f & !MASK_HOLD_SINGLE;
            let f2 = self.flags;
            self.flags = f2 | MASK_HOLD_TABLE;
            proof {
                assert(((f & !4u8) | 8u8) & 4 == 0 && ((f & !4u8) | 8u8) & 8 != 0 && ((f & !4u8)
                    | 8u8) & 1 == f & 1 && ((f & !4u8) | 8u8) & 2 == f & 2 && ((f & !4u8) | 8u8)
                    & 16 == f & 16) by (bit_vector);
            }
        }
        if (self.flags & MASK_HOLD_TABLE) != 0 {
            match &mut self.var {
                Transition::Table(m) => {
                    m.set(key, map);
                },
                _ => {
                    proof {
                        assert(false);
                    }
                },
            }
        } else {
            self.var = Transition::Pair(key, map);
            let f = self.flags;
            self.flags = f | MASK_HOLD_SINGLE;
            proof {
                assert((f | 4u8) & 4 != 0 && (f | 4u8) & 8 == f & 8 && (f | 4u8) & 1 == f & 1 && (
                f | 4u8) & 2 == f & 2 && (f | 4u8) & 16 == f & 16) by (bit_vector);
            }
        }
    }

    /// Look a successor up under `(name, attrs)`.
    pub fn find(&self, name: Symbol, attrs: AttrSafe) -> (r: Option<u32>)
        requires
            self.wf(),
        ensures
            match r {
                Some(c) => self@.contains_key(TransitionKey { name, attrs: attrs.raw })
                    && self@[TransitionKey { name, attrs: attrs.raw }] == c,
                None => !self@.contains_key(TransitionKey { name, attrs: attrs.raw }),
            },
    {
        let key = TransitionKey { name, attrs: attrs.raw() };
        if (self.flags & MASK_HOLD_TABLE) != 0 {
            match &self.var {
                Transition::Table(m) => m.get(key),
                _ => {
                    proof {
                        assert(false);
                    }
                    None
                },
            }
        } else if (self.flags & MASK_HOLD_SINGLE) != 0 {
            match &self.var {
                Transition::Pair(k0, s0) => {
                    if *k0 == key {
                        Some(*s0)
                    } else {
                        None
                    }
                },
                _ => {
                    proof {
                        assert(false);
                    }
                    None
                },
            }
        } else {
            None
        }
    }

    /// True iff transitions are enabled.
    pub fn is_enabled(&self) -> (r: bool)
        ensures
            r == self.spec_is_enabled(),
    {
        (self.flags & MASK_ENABLED) != 0
    }

    /// True iff the owning structure has integer-keyed elements.
    pub fn is_indexed(&self) -> (r: bool)
        ensures
            r == self.spec_is_indexed(),
    {
        (self.flags & MASK_INDEXED) != 0
    }
}

} // verus!
