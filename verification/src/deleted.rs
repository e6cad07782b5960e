//! The deleted-slot stack: a singly-linked list of freed slot offsets, plus a
//! cached size. Nodes live in an arena and are immutable once written; a
//! holder is a copyable head pointer, so holders may share tails.

use vstd::prelude::*;

use crate::cell::{Cell, CellRef, Gc, Trace, Tracer};

verus! {

/// One node of the deleted-slot list.
#[derive(Clone, Copy, PartialEq, Eq, Structural, Debug)]
pub struct DeletedEntry {
    pub prev: Option<u32>,
    pub offset: u32,
}

/// Head of a deleted-slot list plus its cached size.
#[derive(Clone, Copy, PartialEq, Eq, Structural, Debug)]
pub struct DeletedEntryHolder {
    pub entry: Option<u32>,
    pub size: u32,
}

/// The offsets reachable from node `h`, newest first.
pub open spec fn chain_at(nodes: Seq<DeletedEntry>, h: int) -> Seq<u32>
    decreases h,
{
    if 0 <= h < nodes.len() {
        let n = nodes[h];
        match n.prev {
            Option::None => seq![n.offset],
            Option::Some(p) => if p < h {
                seq![n.offset] + chain_at(nodes, p as int)
            } else {
                seq![n.offset]
            },
        }
    } else {
        Seq::empty()
    }
}

/// The offsets a holder stacks, newest first.
pub open spec fn holder_seq(nodes: Seq<DeletedEntry>, holder: DeletedEntryHolder) -> Seq<u32> {
    match holder.entry {
        Option::None => Seq::empty(),
        Option::Some(h) => chain_at(nodes, h as int),
    }
}

/// Every node's `prev` points strictly below it in the arena.
pub open spec fn nodes_wf(nodes: Seq<DeletedEntry>) -> bool {
    forall|i: int|
        0 <= i < nodes.len() ==> match (#[trigger] nodes[i]).prev {
            Option::Some(p) => p < i,
            Option::None => true,
        }
}

/// The holder's head is in the arena and its cached size is the list length.
pub open spec fn holder_wf(nodes: Seq<DeletedEntry>, holder: DeletedEntryHolder) -> bool {
    &&& match holder.entry {
        Option::Some(h) => h < nodes.len(),
        Option::None => true,
    }
    &&& holder.size == holder_seq(nodes, holder).len()
}

/// Chains only read below their head, so extending the arena changes no
/// existing chain.
pub proof fn lemma_chain_grow(nodes1: Seq<DeletedEntry>, nodes2: Seq<DeletedEntry>, h: int)
    requires
        nodes1.len() <= nodes2.len(),
        forall|i: int| 0 <= i < nodes1.len() ==> nodes1[i] == nodes2[i],
        h < nodes1.len(),
    ensures
        chain_at(nodes2, h) == chain_at(nodes1, h),
    decreases h,
{
    if 0 <= h {
        match nodes1[h].prev {
            Option::Some(p) => {
                if p < h {
                    lemma_chain_grow(nodes1, nodes2, p as int);
                }
            },
            Option::None => {},
        }
    }
}

/// Holder form of [`lemma_chain_grow`].
pub proof fn lemma_holder_grow(
    nodes1: Seq<DeletedEntry>,
    nodes2: Seq<DeletedEntry>,
    holder: DeletedEntryHolder,
)
    requires
        nodes1.len() <= nodes2.len(),
        forall|i: int| 0 <= i < nodes1.len() ==> nodes1[i] == nodes2[i],
        holder_wf(nodes1, holder),
    ensures
        holder_seq(nodes2, holder) == holder_seq(nodes1, holder),
        holder_wf(nodes2, holder),
{
    match holder.entry {
        Option::Some(h) => {
            lemma_chain_grow(nodes1, nodes2, h as int);
        },
        Option::None => {},
    }
}

impl DeletedEntryHolder {
    /// An empty stack.
    pub fn new() -> (r: Self)
        ensures
            r.entry is None,
            r.size == 0,
            forall|nodes: Seq<DeletedEntry>| holder_seq(nodes, r) == Seq::<u32>::empty(),
            forall|nodes: Seq<DeletedEntry>| #[trigger] holder_wf(nodes, r),
    {
        DeletedEntryHolder { entry: None, size: 0 }
    }

    /// Push a freed offset.
    pub fn push(&mut self, nodes: &mut Vec<DeletedEntry>, offset: u32)
        requires
            holder_wf(old(nodes)@, *old(self)),
            old(nodes)@.len() < u32::MAX,
            old(self).size < u32::MAX,
        ensures
            final(nodes)@ == old(nodes)@.push(
                DeletedEntry { prev: old(self).entry, offset },
            ),
            holder_wf(final(nodes)@, *final(self)),
            holder_seq(final(nodes)@, *final(self)) =~= seq![offset] + holder_seq(
                old(nodes)@,
                *old(self),
            ),
            final(self).size == old(self).size + 1,
    {
        let idx: u32 = nodes.len() as u32;
        nodes.push(DeletedEntry { prev: self.entry, offset });
        proof {
            match self.entry {
                Option::Some(h) => {
                    lemma_chain_grow(old(nodes)@, nodes@, h as int);
                },
                Option::None => {},
            }
            assert(holder_seq(nodes@, DeletedEntryHolder { entry: Some(idx), size: 0 })
                =~= seq![offset] + holder_seq(old(nodes)@, *old(self)));
        }
        self.entry = Some(idx);
        self.size = self.size + 1;
    }

    /// Pop the most recently freed offset.
    pub fn pop(&mut self, nodes: &Vec<DeletedEntry>) -> (r: u32)
        requires
            nodes_wf(nodes@),
            holder_wf(nodes@, *old(self)),
            old(self).size > 0,
        ensures
            r == holder_seq(nodes@, *old(self))[0],
            holder_seq(nodes@, *final(self)) =~= holder_seq(nodes@, *old(self)).subrange(
                1,
                holder_seq(nodes@, *old(self)).len() as int,
            ),
            holder_wf(nodes@, *final(self)),
            final(self).size == old(self).size - 1,
    {
        match self.entry {
            Option::Some(h) => {
                let node = nodes[h as usize];
                self.entry = node.prev;
                self.size = self.size - 1;
                node.offset
            },
            Option::None => {
                proof {
                    assert(false);
                }
                0
            },
        }
    }

    /// The cached size.
    pub fn size(&self) -> (r: u32)
        ensures
            r == self.size,
    {
        self.size
    }

    /// True iff the stack is empty.
    pub fn empty(&self) -> (r: bool)
        ensures
            r == (self.size == 0),
    {
        self.size == 0
    }
}


/// A deleted-slot node owns the link to the rest of the list.
impl Trace for DeletedEntry {
    open spec fn owned_refs(&self) -> Seq<CellRef> {
        match self.prev {
            Option::Some(p) => seq![CellRef::Deleted(p)],
            Option::None => Seq::empty(),
        }
    }

    fn trace<V: Tracer>(&self, tracer: &mut V) {
        match self.prev {
            Option::Some(p) => {
                tracer.trace(CellRef::Deleted(p));
                proof {
                    assert(tracer.visited() =~= old(tracer).visited() + self.owned_refs());
                }
            },
            Option::None => {
                proof {
                    assert(tracer.visited() + self.owned_refs() =~= tracer.visited());
                }
            },
        }
    }
}

impl Cell for DeletedEntry {
    closed spec fn ty_id_spec() -> u64 {
        16
    }

    fn ty_of() -> u64 {
        16
    }

    fn compute_size(&self) -> usize {
        core::mem::size_of::<Self>()
    }

    fn get_typename(&self) -> &'static str {
        "DeletedEntry"
    }

    fn get_class_value(&self) -> Option<u32> {
        None
    }

    fn get_structure(&self) -> Option<Gc<crate::structure::Structure>> {
        None
    }
}

} // verus!
