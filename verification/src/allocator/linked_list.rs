//! A linked-list allocator's free list: the free regions of the heap, each
//! described by a node that sits at the start of the region.

use vstd::prelude::*;
use vstd::layout::{align_of, size_of, layout_for_type_is_valid};
use crate::allocator::{align_up, align_up_spec};

verus! {

/// What a node occupies at the start of its free region: the region's size
/// and the link to the next node, one machine word each.
pub struct NodeHeader {
    pub size: usize,
    pub next: usize,
}

/// A node of the free list: a free region of `size` bytes that starts at
/// `addr`, where the node itself is stored.
pub struct ListNode {
    addr: usize,
    size: usize,
    next: Option<Box<ListNode>>,
}

/// The free regions, as `(start, size)` pairs, of the list that starts at
/// `node`, in list order.
pub closed spec fn node_regions(node: Option<Box<ListNode>>) -> Seq<(usize, usize)>
    decreases node,
{
    match node {
        Some(n) => seq![(n.addr, n.size)] + node_regions(n.next),
        None => Seq::empty(),
    }
}

impl ListNode {
    /// Creates a node for a free region of `size` bytes at `addr`, linked
    /// to no other node.
    pub fn new(addr: usize, size: usize) -> (r: ListNode)
        ensures
            r.spec_start_addr() == addr,
            r.spec_size() == size,
            r.spec_linked_regions() == Seq::<(usize, usize)>::empty(),
    {
        ListNode { addr, size, next: None }
    }

    /// The regions of the nodes linked after this one.
    pub closed spec fn spec_linked_regions(&self) -> Seq<(usize, usize)> {
        node_regions(self.next)
    }

    /// The start address of the region.
    pub closed spec fn spec_start_addr(&self) -> usize {
        self.addr
    }

    /// The size of the region.
    pub closed spec fn spec_size(&self) -> usize {
        self.size
    }

    /// The address of the region's first byte, where the node lies.
    pub fn start_addr(&self) -> (r: usize)
        ensures
            r == self.spec_start_addr(),
    {
        self.addr
    }

    /// The address just past the region's last byte.
    pub fn end_addr(&self) -> (r: usize)
        requires
            self.spec_start_addr() + self.spec_size() <= usize::MAX,
        ensures
            r == self.spec_start_addr() + self.spec_size(),
    {
        self.start_addr() + self.size
    }
}

/// A free region can hold a node: it starts at an address aligned for a
/// node and has room for one.
pub open spec fn region_holds_node(addr: usize, size: usize) -> bool {
    &&& align_of::<NodeHeader>() > 0
    &&& align_up_spec(addr as int, align_of::<NodeHeader>() as int) == addr
    &&& size >= size_of::<NodeHeader>()
}

/// Regions `[a.0, a.0 + a.1)` and `[b.0, b.0 + b.1)` do not overlap.
pub open spec fn regions_disjoint(a: (usize, usize), b: (usize, usize)) -> bool {
    a.0 + a.1 <= b.0 || b.0 + b.1 <= a.0
}

/// The region `r` overlaps none of `regions`.
pub open spec fn apart_from_all(regions: Seq<(usize, usize)>, r: (usize, usize)) -> bool {
    forall|k: int| 0 <= k < regions.len() ==> regions_disjoint(#[trigger] regions[k], r)
}

/// The number of free bytes in `regions`.
pub open spec fn free_bytes(regions: Seq<(usize, usize)>) -> nat
    decreases regions.len(),
{
    if regions.len() == 0 {
        0
    } else {
        regions[0].1 as nat + free_bytes(regions.drop_first())
    }
}

/// An allocator that keeps the free regions of the heap in a linked list
/// whose nodes are stored in the regions themselves.
pub struct LinkedListAllocator {
    head: ListNode,
}

impl LinkedListAllocator {
    /// The free regions, as `(start, size)` pairs, from the front of the
    /// list to its end.
    pub closed spec fn regions(&self) -> Seq<(usize, usize)> {
        node_regions(self.head.next)
    }

    /// The size recorded in the list's head, which is no free region and
    /// stays 0.
    pub closed spec fn head_size(&self) -> usize {
        self.head.size
    }

    /// Every free region can hold its node, and no two free regions
    /// overlap.
    pub open spec fn wf(&self) -> bool {
        &&& forall|k: int|
            0 <= k < self.regions().len() ==> region_holds_node(
                #[trigger] self.regions()[k].0,
                self.regions()[k].1,
            )
        &&& forall|k: int, l: int|
            0 <= k < self.regions().len() && 0 <= l < self.regions().len() && k != l
                ==> regions_disjoint(#[trigger] self.regions()[k], #[trigger] self.regions()[l])
    }

    /// Creates an empty allocator, with no free region.
    pub fn new() -> (r: Self)
        ensures
            r.wf(),
            r.regions() == Seq::<(usize, usize)>::empty(),
            r.head_size() == 0,
    {
        LinkedListAllocator { head: ListNode::new(0, 0) }
    }

    /// Initializes the allocator with the heap `[heap_start, heap_start +
    /// heap_size)`, which becomes its first free region.
    pub fn init(&mut self, heap_start: usize, heap_size: usize)
        requires
            old(self).wf(),
            region_holds_node(heap_start, heap_size),
            apart_from_all(old(self).regions(), (heap_start, heap_size)),
        ensures
            final(self).wf(),
            final(self).regions() == seq![(heap_start, heap_size)] + old(self).regions(),
            final(self).head_size() == old(self).head_size(),
            free_bytes(final(self).regions()) == free_bytes(old(self).regions()) + heap_size,
    {
        self.add_free_region(heap_start, heap_size);
    }

    /// The free regions, as `(start, size)` pairs, from the front of the
    /// list to its end.
    pub fn free_regions(&self) -> (r: Vec<(usize, usize)>)
        ensures
            r@ == self.regions(),
    {
        let mut out: Vec<(usize, usize)> = Vec::new();
        let mut cur: &Option<Box<ListNode>> = &self.head.next;
        while cur.is_some()
            invariant
                out@ + node_regions(*cur) == self.regions(),
            decreases node_regions(*cur).len(),
        {
            let node: &Box<ListNode> = cur.as_ref().unwrap();
            let ghost before = out@;
            out.push((node.addr, node.size));
            assert(before + node_regions(*cur) =~= out@ + node_regions(node.next));
            cur = &node.next;
        }
        assert(node_regions(*cur) =~= Seq::<(usize, usize)>::empty());
        assert(out@ + node_regions(*cur) =~= out@);
        out
    }

    /// Adds the free region `[addr, addr + size)` to the front of the list.
    /// The region must be able to hold a node and, being free, overlaps no
    /// other free region. The free bytes grow by exactly `size`.
    pub fn add_free_region(&mut self, addr: usize, size: usize)
        requires
            old(self).wf(),
            region_holds_node(addr, size),
            apart_from_all(old(self).regions(), (addr, size)),
        ensures
            final(self).wf(),
            final(self).regions() == seq![(addr, size)] + old(self).regions(),
            final(self).head_size() == old(self).head_size(),
            free_bytes(final(self).regions()) == free_bytes(old(self).regions()) + size,
    {
        layout_for_type_is_valid::<NodeHeader>();
        let aligned = align_up(addr, core::mem::align_of::<NodeHeader>());
        assert(aligned == addr);
        assert(size >= core::mem::size_of::<NodeHeader>());
        let ghost old_regions = self.regions();
        let mut node = ListNode::new(addr, size);
        node.next = self.head.next.take();
        self.head.next = Some(Box::new(node));
        assert(self.regions() =~= seq![(addr, size)] + old_regions);
        assert(self.regions().drop_first() =~= old_regions);
        assert forall|k: int, l: int|
            0 <= k < self.regions().len() && 0 <= l < self.regions().len() && k != l implies regions_disjoint(
            #[trigger] self.regions()[k],
            #[trigger] self.regions()[l],
        ) by {
            if k > 0 {
                assert(self.regions()[k] == old_regions[k - 1]);
            }
            if l > 0 {
                assert(self.regions()[l] == old_regions[l - 1]);
            }
        }
        assert forall|k: int| 0 <= k < self.regions().len() implies region_holds_node(
            #[trigger] self.regions()[k].0,
            self.regions()[k].1,
        ) by {
            if k > 0 {
                assert(self.regions()[k] == old_regions[k - 1]);
            }
        }
    }
}

} // verus!
