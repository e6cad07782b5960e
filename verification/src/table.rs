//! The materialised property map of a structure: property name to slot
//! offset and attributes, with distinct names.
//!
//! The map is held as a compact entry list; its mathematical view is a
//! `Map<Symbol, MapEntry>`.

use vstd::prelude::*;

use crate::structure::MapEntry;
use crate::symbol::Symbol;

verus! {

/// The map denoted by an entry list: later entries win, though a
/// well-formed table never repeats a name.
pub open spec fn map_of(s: Seq<(Symbol, MapEntry)>) -> Map<Symbol, MapEntry>
    decreases s.len(),
{
    if s.len() == 0 {
        Map::empty()
    } else {
        map_of(s.drop_last()).insert(s.last().0, s.last().1)
    }
}

/// No property name occurs twice in the entry list.
pub open spec fn distinct_names(s: Seq<(Symbol, MapEntry)>) -> bool {
    forall|i: int, j: int| 0 <= i < j < s.len() ==> (#[trigger] s[i]).0 != (#[trigger] s[j]).0
}

/// A name is in the map iff some entry carries it.
pub proof fn lemma_map_of_contains(s: Seq<(Symbol, MapEntry)>, k: Symbol)
    ensures
        map_of(s).contains_key(k) <==> exists|i: int| 0 <= i < s.len() && (#[trigger] s[i]).0 == k,
    decreases s.len(),
{
    if s.len() > 0 {
        lemma_map_of_contains(s.drop_last(), k);
        if s.last().0 == k {
            assert(s[s.len() - 1].0 == k);
        } else if map_of(s).contains_key(k) {
            let i = choose|i: int| 0 <= i < s.drop_last().len() && (#[trigger] s.drop_last()[i]).0
                == k;
            assert(s[i].0 == k);
        } else {
            assert forall|i: int| 0 <= i < s.len() implies (#[trigger] s[i]).0 != k by {
                if i < s.len() - 1 {
                    assert(s.drop_last()[i] == s[i]);
                }
            }
        }
    }
}

/// With distinct names, each entry gives the map's value at its name.
pub proof fn lemma_map_of_get(s: Seq<(Symbol, MapEntry)>, i: int)
    requires
        distinct_names(s),
        0 <= i < s.len(),
    ensures
        map_of(s).contains_key(s[i].0),
        map_of(s)[s[i].0] == s[i].1,
    decreases s.len(),
{
    if i == s.len() - 1 {
        lemma_map_of_contains(s, s[i].0);
    } else {
        assert(distinct_names(s.drop_last())) by {
            assert forall|a: int, b: int| 0 <= a < b < s.drop_last().len() implies (
            #[trigger] s.drop_last()[a]).0 != (#[trigger] s.drop_last()[b]).0 by {
                assert(s.drop_last()[a] == s[a]);
                assert(s.drop_last()[b] == s[b]);
            }
        }
        assert(s.drop_last()[i] == s[i]);
        lemma_map_of_get(s.drop_last(), i);
        assert(s[s.len() - 1].0 != s[i].0);
    }
}

/// Dropping the last entry keeps the names distinct.
proof fn lemma_distinct_drop_last(s: Seq<(Symbol, MapEntry)>)
    requires
        distinct_names(s),
        s.len() > 0,
    ensures
        distinct_names(s.drop_last()),
{
    assert forall|a: int, b: int| 0 <= a < b < s.drop_last().len() implies (
    #[trigger] s.drop_last()[a]).0 != (#[trigger] s.drop_last()[b]).0 by {
        assert(s.drop_last()[a] == s[a]);
        assert(s.drop_last()[b] == s[b]);
    }
}

/// Overwriting the entry that carries a name updates the map at that name.
proof fn lemma_map_of_update(s: Seq<(Symbol, MapEntry)>, i: int, v: MapEntry)
    requires
        distinct_names(s),
        0 <= i < s.len(),
    ensures
        map_of(s.update(i, (s[i].0, v))) =~= map_of(s).insert(s[i].0, v),
        distinct_names(s.update(i, (s[i].0, v))),
    decreases s.len(),
{
    let k = s[i].0;
    let t = s.update(i, (k, v));
    assert forall|a: int, b: int| 0 <= a < b < t.len() implies (#[trigger] t[a]).0 != (
    #[trigger] t[b]).0 by {
        assert(t[a].0 == s[a].0);
        assert(t[b].0 == s[b].0);
    }
    if i == s.len() - 1 {
        assert(t.drop_last() =~= s.drop_last());
    } else {
        lemma_distinct_drop_last(s);
        assert(t.drop_last() =~= s.drop_last().update(i, (k, v)));
        assert(s.drop_last()[i] == s[i]);
        lemma_map_of_update(s.drop_last(), i, v);
        assert(s.last().0 != k);
    }
}

/// Removing the entry that carries a name removes the name from the map.
proof fn lemma_map_of_remove(s: Seq<(Symbol, MapEntry)>, i: int)
    requires
        distinct_names(s),
        0 <= i < s.len(),
    ensures
        map_of(s.remove(i)) =~= map_of(s).remove(s[i].0),
        distinct_names(s.remove(i)),
    decreases s.len(),
{
    let k = s[i].0;
    let t = s.remove(i);
    assert forall|a: int, b: int| 0 <= a < b < t.len() implies (#[trigger] t[a]).0 != (
    #[trigger] t[b]).0 by {
        let sa = if a < i {
            a
        } else {
            a + 1
        };
        let sb = if b < i {
            b
        } else {
            b + 1
        };
        assert(t[a].0 == s[sa].0);
        assert(t[b].0 == s[sb].0);
    }
    if i == s.len() - 1 {
        assert(t =~= s.drop_last());
        lemma_distinct_drop_last(s);
        lemma_map_of_contains(s.drop_last(), k);
        assert forall|j: int| 0 <= j < s.drop_last().len() implies (
        #[trigger] s.drop_last()[j]).0 != k by {
            assert(s.drop_last()[j] == s[j]);
        }
        assert(map_of(s.drop_last()) =~= map_of(s).remove(k));
    } else {
        lemma_distinct_drop_last(s);
        assert(t.drop_last() =~= s.drop_last().remove(i));
        assert(s.drop_last()[i] == s[i]);
        lemma_map_of_remove(s.drop_last(), i);
        assert(s.last().0 != k);
        assert(t.last() == s.last());
        assert(map_of(t) =~= map_of(s).remove(k));
    }
}

/// Appending an entry with a fresh name inserts it into the map.
proof fn lemma_map_of_push(s: Seq<(Symbol, MapEntry)>, k: Symbol, v: MapEntry)
    requires
        distinct_names(s),
        forall|i: int| 0 <= i < s.len() ==> (#[trigger] s[i]).0 != k,
    ensures
        map_of(s.push((k, v))) =~= map_of(s).insert(k, v),
        distinct_names(s.push((k, v))),
{
    let t = s.push((k, v));
    assert(t.drop_last() =~= s);
    assert forall|a: int, b: int| 0 <= a < b < t.len() implies (#[trigger] t[a]).0 != (
    #[trigger] t[b]).0 by {
        if b < t.len() - 1 {
            assert(t[a] == s[a] && t[b] == s[b]);
        } else {
            assert(t[a] == s[a]);
        }
    }
}

/// The map of an entry list has finitely many names.
pub proof fn lemma_map_of_finite(s: Seq<(Symbol, MapEntry)>)
    ensures
        map_of(s).dom().finite(),
    decreases s.len(),
{
    if s.len() > 0 {
        lemma_map_of_finite(s.drop_last());
    }
}

/// With distinct names the map has exactly one key per entry.
pub proof fn lemma_map_of_card(s: Seq<(Symbol, MapEntry)>)
    requires
        distinct_names(s),
    ensures
        map_of(s).dom().finite(),
        map_of(s).dom().len() == s.len(),
    decreases s.len(),
{
    if s.len() > 0 {
        lemma_distinct_drop_last(s);
        lemma_map_of_card(s.drop_last());
        lemma_map_of_contains(s.drop_last(), s.last().0);
        assert forall|j: int| 0 <= j < s.drop_last().len() implies (
        #[trigger] s.drop_last()[j]).0 != s.last().0 by {
            assert(s.drop_last()[j] == s[j]);
        }
        assert(!map_of(s.drop_last()).contains_key(s.last().0));
        assert(map_of(s).dom() =~= map_of(s.drop_last()).dom().insert(s.last().0));
    }
}

/// A materialised property map with distinct names.
pub struct PropTable {
    entries: Vec<(Symbol, MapEntry)>,
}

impl View for PropTable {
    type V = Map<Symbol, MapEntry>;

    closed spec fn view(&self) -> Map<Symbol, MapEntry> {
        map_of(self.entries@)
    }
}

impl PropTable {
    /// Distinct names.
    pub closed spec fn wf(&self) -> bool {
        distinct_names(self.entries@)
    }

    /// Number of entries; with `wf` this equals the number of names in the map.
    pub closed spec fn spec_len(&self) -> nat {
        self.entries@.len()
    }

    /// The raw entry list, for iteration.
    pub closed spec fn entries_seq(&self) -> Seq<(Symbol, MapEntry)> {
        self.entries@
    }

    /// The entry list enumerates the map: each listed pair is in the map, and
    /// each name in the map is listed exactly once.
    pub proof fn lemma_enumeration(&self)
        requires
            self.wf(),
        ensures
            self.entries_seq().len() == self.spec_len(),
            forall|i: int|
                0 <= i < self.entries_seq().len() ==> self@.contains_key(
                    (#[trigger] self.entries_seq()[i]).0,
                ) && self@[self.entries_seq()[i].0] == self.entries_seq()[i].1,
            forall|k: Symbol|
                self@.contains_key(k) ==> exists|i: int|
                    0 <= i < self.entries_seq().len() && (#[trigger] self.entries_seq()[i]).0 == k,
            distinct_names(self.entries_seq()),
            self@.dom().finite(),
            self@.dom().len() == self.spec_len(),
    {
        assert forall|i: int| 0 <= i < self.entries_seq().len() implies self@.contains_key(
            (#[trigger] self.entries_seq()[i]).0,
        ) && self@[self.entries_seq()[i].0] == self.entries_seq()[i].1 by {
            lemma_map_of_get(self.entries@, i);
        }
        assert forall|k: Symbol| self@.contains_key(k) implies exists|i: int|
            0 <= i < self.entries_seq().len() && (#[trigger] self.entries_seq()[i]).0 == k by {
            lemma_map_of_contains(self.entries@, k);
            let w = choose|i: int| 0 <= i < self.entries@.len() && (#[trigger] self.entries@[i]).0
                == k;
            assert(0 <= w < self.entries_seq().len() && self.entries_seq()[w].0 == k);
        }
        lemma_map_of_card(self.entries@);
    }

    /// The map has finitely many names.
    pub proof fn lemma_view_finite(&self)
        ensures
            self@.dom().finite(),
    {
        lemma_map_of_finite(self.entries@);
    }

    /// Fresh empty map.
    pub fn new() -> (r: Self)
        ensures
            r@ =~= Map::<Symbol, MapEntry>::empty(),
            r.wf(),
            r.spec_len() == 0,
    {
        PropTable { entries: Vec::new() }
    }

    /// Number of entries.
    pub fn len(&self) -> (r: usize)
        ensures
            r == self.spec_len(),
    {
        self.entries.len()
    }

    /// Look a name up.
    pub fn get(&self, name: Symbol) -> (r: Option<MapEntry>)
        requires
            self.wf(),
        ensures
            match r {
                Some(e) => self@.contains_key(name) && self@[name] == e,
                None => !self@.contains_key(name),
            },
    {
        let n = self.entries.len();
        let mut i: usize = 0;
        while i < n
            invariant
                n == self.entries@.len(),
                0 <= i <= n,
                self.wf(),
                forall|j: int| 0 <= j < i ==> (#[trigger] self.entries@[j]).0 != name,
            decreases n - i,
        {
            let (k, v) = self.entries[i];
            if k == name {
                proof {
                    lemma_map_of_get(self.entries@, i as int);
                }
                return Some(v);
            }
            i = i + 1;
        }
        proof {
            lemma_map_of_contains(self.entries@, name);
        }
        None
    }

    /// Insert or overwrite a name.
    pub fn set(&mut self, name: Symbol, entry: MapEntry)
        requires
            old(self).wf(),
        ensures
            final(self).wf(),
            final(self)@ =~= old(self)@.insert(name, entry),
            final(self).spec_len() == old(self).spec_len() + (if old(self)@.contains_key(name) {
                0int
            } else {
                1int
            }),
    {
        let n = self.entries.len();
        let mut i: usize = 0;
        while i < n
            invariant
                n == self.entries@.len(),
                0 <= i <= n,
                self.wf(),
                self == old(self),
                forall|j: int| 0 <= j < i ==> (#[trigger] self.entries@[j]).0 != name,
            decreases n - i,
        {
            let (k, _) = self.entries[i];
            if k == name {
                proof {
                    lemma_map_of_get(self.entries@, i as int);
                    lemma_map_of_update(self.entries@, i as int, entry);
                    lemma_map_of_contains(self.entries@, name);
                }
                self.entries[i] = (name, entry);
                return ;
            }
            i = i + 1;
        }
        proof {
            lemma_map_of_contains(self.entries@, name);
            lemma_map_of_push(self.entries@, name, entry);
        }
        self.entries.push((name, entry));
    }

    /// Remove a name that is present.
    pub fn remove(&mut self, name: Symbol)
        requires
            old(self).wf(),
            old(self)@.contains_key(name),
        ensures
            final(self).wf(),
            final(self)@ =~= old(self)@.remove(name),
            final(self).spec_len() == old(self).spec_len() - 1,
    {
        let n = self.entries.len();
        let mut i: usize = 0;
        while i < n
            invariant
                n == self.entries@.len(),
                0 <= i <= n,
                self.wf(),
                self == old(self),
                old(self)@.contains_key(name),
                forall|j: int| 0 <= j < i ==> (#[trigger] self.entries@[j]).0 != name,
            decreases n - i,
        {
            let (k, _) = self.entries[i];
            if k == name {
                proof {
                    lemma_map_of_remove(self.entries@, i as int);
                }
                self.entries.remove(i);
                return ;
            }
            i = i + 1;
        }
        proof {
            lemma_map_of_contains(self.entries@, name);
            assert(false);
        }
    }

    /// An identical fresh copy.
    pub fn duplicate(&self) -> (r: Self)
        ensures
            r@ == self@,
            r.wf() == self.wf(),
            r.spec_len() == self.spec_len(),
            r.entries_seq() == self.entries_seq(),
    {
        let n = self.entries.len();
        let mut out: Vec<(Symbol, MapEntry)> = Vec::new();
        let mut i: usize = 0;
        while i < n
            invariant
                n == self.entries@.len(),
                0 <= i <= n,
                out@ =~= self.entries@.subrange(0, i as int),
            decreases n - i,
        {
            out.push(self.entries[i]);
            i = i + 1;
        }
        proof {
            assert(out@ =~= self.entries@);
        }
        PropTable { entries: out }
    }

    /// The entry at a list position.
    pub fn entry_at(&self, i: usize) -> (r: (Symbol, MapEntry))
        requires
            i < self.spec_len(),
        ensures
            r == self.entries_seq()[i as int],
    {
        self.entries[i]
    }
}

} // verus!
