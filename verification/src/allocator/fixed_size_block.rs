//! A fixed-size-block allocator: requests are rounded up to one of a few
//! block sizes, freed blocks are kept in one free list per size and handed
//! out again first; larger requests go to a linked-list heap.

use vstd::prelude::*;
use vstd::arithmetic::power2::is_pow2;
use vstd::layout::valid_layout;
use core::mem::MaybeUninit;
use linked_list_allocator::Heap;
use crate::allocator::Layout;

verus! {

/// The number of block sizes.
pub const NUM_BLOCK_SIZES: usize = 9;

/// The block sizes to use. The sizes must each be power of 2 because they
/// are also used as the block alignment. For allocations greater than 2048
/// bytes, the allocator falls back to the linked-list heap.
pub const BLOCK_SIZES: [usize; 9] = [8, 16, 32, 64, 128, 256, 512, 1024, 2048];

/// The size (and alignment) of the blocks of size class `i`.
pub open spec fn block_size(i: int) -> int {
    if i == 0 {
        8
    } else if i == 1 {
        16
    } else if i == 2 {
        32
    } else if i == 3 {
        64
    } else if i == 4 {
        128
    } else if i == 5 {
        256
    } else if i == 6 {
        512
    } else if i == 7 {
        1024
    } else {
        2048
    }
}

/// The block size a layout needs: its size, or its alignment when that is
/// larger, since a block is aligned to its own size.
pub open spec fn required_block_size(layout: Layout) -> int {
    if layout.size >= layout.align {
        layout.size as int
    } else {
        layout.align as int
    }
}

/// The size class of a layout: the first class whose blocks are large
/// enough, or `None` when the layout needs more than the largest block.
pub open spec fn list_index_spec(layout: Layout) -> Option<int> {
    first_fitting_class(required_block_size(layout), 0)
}

/// The first class, from `i` on, whose block size is at least `required`.
pub open spec fn first_fitting_class(required: int, i: int) -> Option<int>
    decreases NUM_BLOCK_SIZES - i,
{
    if i < 0 || i >= NUM_BLOCK_SIZES {
        None
    } else if block_size(i) >= required {
        Some(i)
    } else {
        first_fitting_class(required, i + 1)
    }
}

/// What `first_fitting_class` finds: a class from `i` on whose block size is
/// at least `required`, with every class between `i` and it too small; or,
/// when there is none, every class from `i` on is too small.
proof fn lemma_first_fitting_class(required: int, i: int)
    requires
        0 <= i <= NUM_BLOCK_SIZES,
    ensures
        first_fitting_class(required, i) matches Some(k) ==> {
            &&& i <= k < NUM_BLOCK_SIZES
            &&& block_size(k) >= required
            &&& forall|j: int| i <= j < k ==> block_size(j) < required
        },
        first_fitting_class(required, i) is None ==> forall|j: int|
            i <= j < NUM_BLOCK_SIZES ==> block_size(j) < required,
    decreases NUM_BLOCK_SIZES - i,
{
    if i < NUM_BLOCK_SIZES && block_size(i) < required {
        lemma_first_fitting_class(required, i + 1);
    }
}

/// A power of two divides every power of two that is not smaller.
pub proof fn lemma_pow2_divides(a: int, b: int)
    requires
        is_pow2(a),
        is_pow2(b),
        a <= b,
    ensures
        b % a == 0,
    decreases a,
{
    reveal(is_pow2);
    if a != 1 {
        lemma_pow2_divides(a / 2, b / 2);
        let k = (b / 2) / (a / 2);
        assert(b == k * a) by (nonlinear_arith)
            requires
                b == 2 * (b / 2),
                a == 2 * (a / 2),
                (b / 2) % (a / 2) == 0,
                a / 2 > 0,
                k == (b / 2) / (a / 2),
        {
            vstd::arithmetic::div_mod::lemma_fundamental_div_mod(b / 2, a / 2);
        }
        vstd::arithmetic::div_mod::lemma_mod_multiples_basic(k, a);
    }
}

/// An address aligned to `m` is aligned to every divisor `d` of `m`.
proof fn lemma_aligned_to_divisor(a: int, m: int, d: int)
    requires
        m > 0,
        d > 0,
        a % m == 0,
        m % d == 0,
    ensures
        a % d == 0,
{
    vstd::arithmetic::div_mod::lemma_fundamental_div_mod(a, m);
    vstd::arithmetic::div_mod::lemma_fundamental_div_mod(m, d);
    let k = a / m;
    let j = m / d;
    assert(a == (k * j) * d) by (nonlinear_arith)
        requires
            a == m * k,
            m == d * j,
    ;
    vstd::arithmetic::div_mod::lemma_mod_multiples_basic(k * j, d);
}

/// Every block size is a power of two, and a block size together with the
/// same alignment is a valid layout.
pub proof fn lemma_block_size_valid(i: int)
    requires
        0 <= i < NUM_BLOCK_SIZES,
    ensures
        is_pow2(block_size(i)),
        valid_layout(block_size(i) as usize, block_size(i) as usize),
{
    reveal_with_fuel(is_pow2, 13);
    assert(isize::MAX as int % block_size(i) == block_size(i) - 1) by (nonlinear_arith)
        requires
            isize::MAX == 0x7fff_ffff || isize::MAX == 0x7fff_ffff_ffff_ffff,
            block_size(i) == 8 || block_size(i) == 16 || block_size(i) == 32 || block_size(i)
                == 64 || block_size(i) == 128 || block_size(i) == 256 || block_size(i) == 512
                || block_size(i) == 1024 || block_size(i) == 2048,
    ;
}

/// The size class chosen for a layout is the smallest whose blocks hold the
/// layout: a block of that class is at least as large as the layout and its
/// address, a multiple of the block size, satisfies the layout's alignment;
/// every smaller class is too small.
pub proof fn lemma_list_index_fits(layout: Layout, i: int)
    requires
        layout.is_valid(),
        list_index_spec(layout) == Some(i),
    ensures
        0 <= i < NUM_BLOCK_SIZES,
        layout.align > 0,
        block_size(i) >= layout.size,
        block_size(i) >= layout.align,
        block_size(i) % (layout.align as int) == 0,
        forall|j: int| 0 <= j < i ==> block_size(j) < required_block_size(layout),
{
    reveal(is_pow2);
    lemma_first_fitting_class(required_block_size(layout), 0);
    lemma_block_size_valid(i);
    lemma_pow2_divides(layout.align as int, block_size(i));
}

/// The size class of a layout is the first entry of `BLOCK_SIZES` that is at
/// least both the layout's size and its alignment: every earlier entry is
/// smaller than one of them. A layout has no class exactly when its size or
/// its alignment exceeds 2048, the largest entry.
pub proof fn lemma_list_index_is_first_fit(layout: Layout)
    ensures
        list_index_spec(layout) matches Some(i) ==> {
            &&& 0 <= i < NUM_BLOCK_SIZES
            &&& BLOCK_SIZES[i] >= layout.size
            &&& BLOCK_SIZES[i] >= layout.align
            &&& forall|j: int|
                0 <= j < i ==> BLOCK_SIZES[j] < layout.size || BLOCK_SIZES[j] < layout.align
        },
        list_index_spec(layout) is None <==> (layout.size > 2048 || layout.align > 2048),
{
    lemma_first_fitting_class(required_block_size(layout), 0);
    lemma_list_index_none(layout);
    assert forall|j: int| 0 <= j < NUM_BLOCK_SIZES implies #[trigger] BLOCK_SIZES[j] == block_size(
        j,
    ) by {}
    if let Some(i) = list_index_spec(layout) {
        assert(BLOCK_SIZES[i] == block_size(i));
        assert forall|j: int| 0 <= j < i implies BLOCK_SIZES[j] < layout.size || BLOCK_SIZES[j]
            < layout.align by {
            assert(BLOCK_SIZES[j] == block_size(j));
            assert(block_size(j) < required_block_size(layout));
        }
    }
}

/// A layout has no size class exactly when it needs more than the largest
/// block, 2048 bytes.
pub proof fn lemma_list_index_none(layout: Layout)
    ensures
        list_index_spec(layout) is None <==> required_block_size(layout) > 2048,
{
    lemma_first_fitting_class(required_block_size(layout), 0);
    match list_index_spec(layout) {
        Some(k) => assert(block_size(k) <= 2048),
        None => assert(block_size(NUM_BLOCK_SIZES - 1) < required_block_size(layout)),
    }
}

/// The block size of class `index`.
pub fn block_size_of(index: usize) -> (r: usize)
    requires
        index < NUM_BLOCK_SIZES,
    ensures
        r == block_size(index as int),
{
    BLOCK_SIZES[index]
}

/// Chooses an appropriate size class for the given layout: the index of the
/// first block size that fits it, or `None` when no block size fits.
pub fn list_index(layout: &Layout) -> (r: Option<usize>)
    ensures
        r matches Some(i) ==> list_index_spec(*layout) == Some(i as int),
        r is None ==> list_index_spec(*layout) is None,
        r matches Some(i) ==> {
            &&& i < NUM_BLOCK_SIZES
            &&& BLOCK_SIZES[i as int] >= layout.size
            &&& BLOCK_SIZES[i as int] >= layout.align
            &&& forall|j: int|
                0 <= j < i ==> BLOCK_SIZES[j] < layout.size || BLOCK_SIZES[j] < layout.align
        },
        r is None <==> (layout.size > 2048 || layout.align > 2048),
{
    proof {
        lemma_list_index_is_first_fit(*layout);
    }
    let required: usize = layout.size.max(layout.align);
    let mut i: usize = 0;
    while i < NUM_BLOCK_SIZES
        invariant
            0 <= i <= NUM_BLOCK_SIZES,
            required == required_block_size(*layout),
            first_fitting_class(required as int, 0) == first_fitting_class(
                required as int,
                i as int,
            ),
        decreases NUM_BLOCK_SIZES - i,
    {
        if block_size_of(i) >= required {
            proof {
                lemma_list_index_is_first_fit(*layout);
            }
            return Some(i);
        }
        i = i + 1;
    }
    None
}

/// The heap of the `linked_list_allocator` crate, which serves the requests
/// that no size class fits and supplies fresh blocks when a free list is
/// empty.
#[verifier::external_type_specification]
#[verifier::external_body]
pub struct ExHeap(Heap);

/// The size of the memory that a heap manages, as `Heap::size` reports it.
pub uninterp spec fn heap_size(heap: Heap) -> usize;

/// The first address of the memory that a heap manages, as `Heap::bottom`
/// reports it.
pub uninterp spec fn heap_bottom(heap: Heap) -> usize;

/// The free holes of a heap, each as its start address and its size.
pub uninterp spec fn heap_holes(heap: Heap) -> Set<(usize, usize)>;

/// What `Heap::allocate_first_fit` answers a heap for a layout of `size`
/// bytes aligned to `align`: the start of the block it hands out, or `None`
/// when it refuses.
pub uninterp spec fn first_fit(heap: Heap, size: usize, align: usize) -> Option<usize>;

/// The block `[a, a + s)` lies inside `[b, b + z)`.
pub open spec fn within(a: int, s: int, b: int, z: int) -> bool {
    b <= a && a + s <= b + z
}

/// The block `[a, a + s)` lies inside the memory that the heap manages.
pub open spec fn in_heap(heap: Heap, a: int, s: int) -> bool {
    within(a, s, heap_bottom(heap) as int, heap_size(heap) as int)
}

/// The block `[a, a + s)` overlaps none of the heap's free holes.
pub open spec fn free_of_holes(heap: Heap, a: int, s: int) -> bool {
    forall|hole: (usize, usize)|
        #[trigger] heap_holes(heap).contains(hole) ==> disjoint(a, s, hole.0 as int, hole.1 as int)
}

/// A heap is well formed: its memory lies in the address space and every
/// free hole lies in its memory, at a non-null address.
pub open spec fn heap_wf(heap: Heap) -> bool {
    &&& heap_bottom(heap) + heap_size(heap) <= usize::MAX + 1
    &&& forall|hole: (usize, usize)|
        #[trigger] heap_holes(heap).contains(hole) ==> {
            &&& in_heap(heap, hole.0 as int, hole.1 as int)
            &&& hole.0 > 0
        }
}

/// The size that the heap takes for a request of `size` bytes: at least the
/// two machine words of a hole (at most 16 bytes), rounded up to the hole's
/// alignment (at most 8).
pub open spec fn heap_alloc_size(size: usize) -> int {
    crate::allocator::align_up_spec(if size < 16 { 16 } else { size as int }, 8)
}

/// The heap can serve a request of `size` bytes aligned to `align` without
/// panicking: the layout is valid also once the heap has rounded its size
/// up.
pub open spec fn heap_layout_ok(size: usize, align: usize) -> bool {
    &&& valid_layout(size, align)
    &&& heap_alloc_size(size) <= isize::MAX as int - (isize::MAX as int) % (align as int)
}

/// The heap's address arithmetic for a request of `size` bytes aligned to
/// `align` stays within the address space: the heap's end, plus a hole's
/// header, the alignment and the rounded size.
pub open spec fn heap_room(heap: Heap, size: usize, align: usize) -> bool {
    heap_bottom(heap) + heap_size(heap) + 16 + align + heap_alloc_size(size) <= usize::MAX + 1
}

/// The holes of `after` are what remains of the holes of `before` once the
/// block `[a, a + s)` is taken: each lies inside a hole of `before` and
/// apart from the block.
pub open spec fn holes_after_taking(before: Heap, after: Heap, a: int, s: int) -> bool {
    forall|hole: (usize, usize)|
        #[trigger] heap_holes(after).contains(hole) ==> {
            &&& disjoint(hole.0 as int, hole.1 as int, a, s)
            &&& exists|outer: (usize, usize)|
                #[trigger] heap_holes(before).contains(outer) && within(
                    hole.0 as int,
                    hole.1 as int,
                    outer.0 as int,
                    outer.1 as int,
                )
        }
}

/// The address `x` lies in one of the heap's free holes.
pub open spec fn in_holes(heap: Heap, x: int) -> bool {
    exists|hole: (usize, usize)|
        #[trigger] heap_holes(heap).contains(hole) && hole.0 <= x < hole.0 + hole.1
}

/// The free memory of `after` is exactly that of `before` less the block
/// `[a, a + n)`: no other byte is taken and none is added.
pub open spec fn takes_exactly(before: Heap, after: Heap, a: int, n: int) -> bool {
    forall|x: int|
        #![trigger in_holes(after, x)]
        #![trigger in_holes(before, x)]
        in_holes(after, x) == (in_holes(before, x) && !(a <= x < a + n))
}

/// The heap's free memory shrinks by exactly one block at `a` that holds
/// `size` bytes, rounded up no further than the heap rounds a request.
pub open spec fn takes_one_block(before: Heap, after: Heap, a: int, size: usize) -> bool {
    exists|n: int|
        size <= n <= heap_alloc_size(size) && #[trigger] takes_exactly(before, after, a, n)
}

/// The address of the block a heap hands out, or the null address 0 when it
/// refuses.
pub open spec fn address_or_null(answer: Option<usize>) -> usize {
    match answer {
        Some(addr) => addr,
        None => 0,
    }
}

/// The size of the heap that `Heap::from_slice` makes of `len` bytes: all of
/// them, or none when they are too few for one hole (two machine words).
pub open spec fn heap_size_of_slice(len: nat) -> nat {
    if len < 2 * vstd::layout::size_of::<usize>() {
        0
    } else {
        len
    }
}

/// Calls `Heap::empty`, which makes a heap that owns no memory: its bottom
/// and size are 0 and it has no hole.
#[verifier::external_body]
fn heap_empty() -> (r: Heap)
    ensures
        heap_size(r) == 0,
        heap_bottom(r) == 0,
        heap_holes(r) == Set::<(usize, usize)>::empty(),
{
    Heap::empty()
}

/// Calls `Heap::from_slice`, which makes a heap that manages the memory of
/// `mem`: its size is the slice's length, or 0 when the slice is too short
/// for one hole, in which case the heap is empty. Its holes lie in that
/// memory. Where the memory lies is not stated: it is where `mem` lies.
#[verifier::external_body]
fn heap_from_slice(mem: &'static mut [MaybeUninit<u8>]) -> (r: Heap)
    ensures
        heap_size(r) == heap_size_of_slice(old(mem)@.len()),
        heap_wf(r),
{
    Heap::from_slice(mem)
}

/// Calls `Heap::allocate_first_fit` with the layout of `size` bytes aligned
/// to `align`. The heap hands out a non-null block aligned to `align` that
/// lies inside one of its holes; the holes left are parts of the old holes
/// apart from the block, and the heap's free memory loses exactly the block,
/// its size rounded up as the heap rounds it; the heap's bottom and size
/// stay. A refusal
/// leaves the heap as it was, and a heap of size 0 refuses every request.
/// The heap rounds the size up (`heap_alloc_size`) and panics when that
/// rounded layout is invalid, and its address arithmetic is unchecked; both
/// are left out.
#[verifier::external_body]
fn heap_allocate_first_fit(heap: &mut Heap, size: usize, align: usize) -> (r: Option<usize>)
    requires
        heap_layout_ok(size, align),
        heap_room(*old(heap), size, align),
    ensures
        r == first_fit(*old(heap), size, align),
        heap_size(*final(heap)) == heap_size(*old(heap)),
        heap_bottom(*final(heap)) == heap_bottom(*old(heap)),
        r is None ==> *final(heap) == *old(heap),
        heap_size(*old(heap)) == 0 ==> r is None,
        r matches Some(addr) ==> {
            &&& addr != 0
            &&& addr % align == 0
            &&& exists|hole: (usize, usize)|
                #[trigger] heap_holes(*old(heap)).contains(hole) && within(
                    addr as int,
                    size as int,
                    hole.0 as int,
                    hole.1 as int,
                )
            &&& holes_after_taking(*old(heap), *final(heap), addr as int, size as int)
            &&& takes_one_block(*old(heap), *final(heap), addr as int, size)
        },
{
    match core::alloc::Layout::from_size_align(size, align) {
        Ok(layout) => match heap.allocate_first_fit(layout) {
            Ok(ptr) => Some(ptr.addr().get()),
            Err(()) => None,
        },
        Err(_) => None,
    }
}

/// Blocks `[a, a + sa)` and `[b, b + sb)` do not overlap.
pub open spec fn disjoint(a: int, sa: int, b: int, sb: int) -> bool {
    a + sa <= b || b + sb <= a
}

/// The free lists are well formed: one list per size class, and every free
/// block is non-null, aligned to its class's block size, lies within the
/// address space, and overlaps no other free block.
pub open spec fn lists_wf(lists: Seq<Seq<usize>>) -> bool {
    &&& lists.len() == NUM_BLOCK_SIZES
    &&& forall|i: int, k: int|
        #![trigger lists[i][k]]
        0 <= i < NUM_BLOCK_SIZES && 0 <= k < lists[i].len() ==> {
            &&& lists[i][k] != 0
            &&& (lists[i][k] as int) % block_size(i) == 0
            &&& lists[i][k] + block_size(i) <= usize::MAX + 1
        }
    &&& forall|i: int, k: int, j: int, l: int|
        #![trigger lists[i][k], lists[j][l]]
        0 <= i < NUM_BLOCK_SIZES && 0 <= k < lists[i].len() && 0 <= j < NUM_BLOCK_SIZES && 0 <= l
            < lists[j].len() && (i != j || k != l) ==> disjoint(
            lists[i][k] as int,
            block_size(i),
            lists[j][l] as int,
            block_size(j),
        )
}

/// The block `[ptr, ptr + size)` overlaps no block in the free lists.
pub open spec fn free_of(lists: Seq<Seq<usize>>, ptr: int, size: int) -> bool {
    forall|j: int, l: int|
        #![trigger lists[j][l]]
        0 <= j < lists.len() && 0 <= l < lists[j].len() ==> disjoint(
            ptr,
            size,
            lists[j][l] as int,
            block_size(j),
        )
}

/// The free lists after the head of list `i` (its last element) is taken.
pub open spec fn pop_block(lists: Seq<Seq<usize>>, i: int) -> Seq<Seq<usize>> {
    lists.update(i, lists[i].drop_last())
}

/// The free lists after `ptr` becomes the head of list `i`.
pub open spec fn push_block(lists: Seq<Seq<usize>>, i: int, ptr: usize) -> Seq<Seq<usize>> {
    lists.update(i, lists[i].push(ptr))
}

/// Taking the head of a free list keeps the free lists well formed, and the
/// block taken overlaps none of the blocks that stay free.
pub proof fn lemma_pop_block(lists: Seq<Seq<usize>>, i: int)
    requires
        lists_wf(lists),
        0 <= i < NUM_BLOCK_SIZES,
        lists[i].len() > 0,
    ensures
        lists_wf(pop_block(lists, i)),
        free_of(pop_block(lists, i), lists[i].last() as int, block_size(i)),
{
    let new = pop_block(lists, i);
    let n = lists[i].len() - 1;
    assert forall|j: int, l: int|
        0 <= j < NUM_BLOCK_SIZES && 0 <= l < new[j].len() implies #[trigger] new[j][l]
        == lists[j][l] && 0 <= l < lists[j].len() by {}
    assert forall|j: int, l: int|
        0 <= j < new.len() && 0 <= l < new[j].len() implies disjoint(
        lists[i].last() as int,
        block_size(i),
        #[trigger] new[j][l] as int,
        block_size(j),
    ) by {
        assert(new[j][l] == lists[j][l]);
        assert(lists[i].last() == lists[i][n]);
    }
}

/// Putting a block that is non-null, aligned to class `i`'s block size,
/// within the address space and free of every free block at the head of
/// list `i` keeps the free lists well formed.
pub proof fn lemma_push_block(lists: Seq<Seq<usize>>, i: int, ptr: usize)
    requires
        lists_wf(lists),
        0 <= i < NUM_BLOCK_SIZES,
        ptr != 0,
        (ptr as int) % block_size(i) == 0,
        ptr + block_size(i) <= usize::MAX + 1,
        free_of(lists, ptr as int, block_size(i)),
    ensures
        lists_wf(push_block(lists, i, ptr)),
{
    let new = push_block(lists, i, ptr);
    let n = lists[i].len();
    assert forall|j: int, l: int|
        0 <= j < NUM_BLOCK_SIZES && 0 <= l < new[j].len() && !(j == i && l == n) implies #[trigger] new[j][l]
        == lists[j][l] && 0 <= l < lists[j].len() by {}
    assert forall|j: int, l: int, a: int, b: int|
        0 <= j < NUM_BLOCK_SIZES && 0 <= l < new[j].len() && 0 <= a < NUM_BLOCK_SIZES && 0 <= b
            < new[a].len() && (j != a || l != b) implies disjoint(
        #[trigger] new[j][l] as int,
        block_size(j),
        #[trigger] new[a][b] as int,
        block_size(a),
    ) by {
        if j == i && l == n {
            assert(new[a][b] == lists[a][b]);
        } else if a == i && b == n {
            assert(new[j][l] == lists[j][l]);
        } else {
            assert(new[j][l] == lists[j][l]);
            assert(new[a][b] == lists[a][b]);
        }
    }
}

/// A block that is freed and then asked for again with the same size class
/// is the block handed out, and the free lists are as before: the free lists
/// are last-in first-out.
pub proof fn lemma_push_then_pop(lists: Seq<Seq<usize>>, i: int, ptr: usize)
    requires
        lists.len() == NUM_BLOCK_SIZES,
        0 <= i < NUM_BLOCK_SIZES,
    ensures
        push_block(lists, i, ptr)[i].len() > 0,
        push_block(lists, i, ptr)[i].last() == ptr,
        pop_block(push_block(lists, i, ptr), i) == lists,
{
    assert(push_block(lists, i, ptr)[i].drop_last() =~= lists[i]);
    assert(pop_block(push_block(lists, i, ptr), i) =~= lists);
}

/// A block that is handed out from a free list and then freed again with the
/// same size class puts the free lists back as they were.
pub proof fn lemma_pop_then_push(lists: Seq<Seq<usize>>, i: int)
    requires
        lists.len() == NUM_BLOCK_SIZES,
        0 <= i < NUM_BLOCK_SIZES,
        lists[i].len() > 0,
    ensures
        push_block(pop_block(lists, i), i, lists[i].last()) == lists,
{
    assert(pop_block(lists, i)[i].push(lists[i].last()) =~= lists[i]);
    assert(push_block(pop_block(lists, i), i, lists[i].last()) =~= lists);
}

/// Every free block lies in the heap's memory and overlaps none of the
/// heap's holes.
pub open spec fn blocks_in_heap(lists: Seq<Seq<usize>>, heap: Heap) -> bool {
    forall|i: int, k: int|
        #![trigger lists[i][k]]
        0 <= i < lists.len() && 0 <= k < lists[i].len() ==> {
            &&& in_heap(heap, lists[i][k] as int, block_size(i))
            &&& free_of_holes(heap, lists[i][k] as int, block_size(i))
        }
}

/// A block of class `i` at `ptr` can be given back: it is non-null, aligned
/// to the class's block size, lies in the heap's memory, and overlaps no
/// free block and no hole of the heap, as every block in use does.
pub open spec fn can_free(lists: Seq<Seq<usize>>, heap: Heap, ptr: usize, i: int) -> bool {
    &&& ptr != 0
    &&& (ptr as int) % block_size(i) == 0
    &&& in_heap(heap, ptr as int, block_size(i))
    &&& free_of(lists, ptr as int, block_size(i))
    &&& free_of_holes(heap, ptr as int, block_size(i))
}

/// The size of the block handed out for a layout: its class's block size,
/// or the layout's own size when no class fits.
pub open spec fn handed_out_size(layout: Layout) -> int {
    match list_index_spec(layout) {
        Some(i) => block_size(i),
        None => layout.size as int,
    }
}

/// Giving back a block that can be freed keeps the allocator's invariant,
/// and the next request of the same class hands that very block out again
/// and leaves the free lists as they were before it was given back.
pub proof fn lemma_freed_block_is_reused(lists: Seq<Seq<usize>>, heap: Heap, ptr: usize, i: int)
    requires
        lists_wf(lists),
        heap_wf(heap),
        blocks_in_heap(lists, heap),
        0 <= i < NUM_BLOCK_SIZES,
        can_free(lists, heap, ptr, i),
    ensures
        lists_wf(push_block(lists, i, ptr)),
        blocks_in_heap(push_block(lists, i, ptr), heap),
        push_block(lists, i, ptr)[i].last() == ptr,
        pop_block(push_block(lists, i, ptr), i) == lists,
{
    lemma_push_block(lists, i, ptr);
    lemma_push_then_pop(lists, i, ptr);
    let new = push_block(lists, i, ptr);
    let n = lists[i].len();
    assert forall|j: int, k: int| 0 <= j < new.len() && 0 <= k < new[j].len() implies {
        &&& in_heap(heap, #[trigger] new[j][k] as int, block_size(j))
        &&& free_of_holes(heap, new[j][k] as int, block_size(j))
    } by {
        if !(j == i && k == n) {
            assert(new[j][k] == lists[j][k]);
        }
    }
}

/// The alignment of the block handed out for a layout: its class's block
/// size, or the layout's own alignment when no class fits.
pub open spec fn handed_out_align(layout: Layout) -> int {
    match list_index_spec(layout) {
        Some(i) => block_size(i),
        None => layout.align as int,
    }
}

/// The heap can serve the block layout of every size class.
proof fn lemma_block_layout_ok(i: int)
    requires
        0 <= i < NUM_BLOCK_SIZES,
    ensures
        heap_layout_ok(block_size(i) as usize, block_size(i) as usize),
{
    lemma_block_size_valid(i);
    assert(isize::MAX as int % block_size(i) == block_size(i) - 1) by (nonlinear_arith)
        requires
            isize::MAX == 0x7fff_ffff || isize::MAX == 0x7fff_ffff_ffff_ffff,
            block_size(i) == 8 || block_size(i) == 16 || block_size(i) == 32 || block_size(i)
                == 64 || block_size(i) == 128 || block_size(i) == 256 || block_size(i) == 512
                || block_size(i) == 1024 || block_size(i) == 2048,
    ;
}

/// Taking the block `[a, a + s)` out of one of the heap's holes keeps the
/// heap and the free blocks well placed, and the block lies in the heap,
/// apart from every free block and every hole left.
proof fn lemma_take_from_heap(lists: Seq<Seq<usize>>, before: Heap, after: Heap, a: int, s: int)
    requires
        heap_wf(before),
        blocks_in_heap(lists, before),
        heap_size(after) == heap_size(before),
        heap_bottom(after) == heap_bottom(before),
        exists|hole: (usize, usize)|
            #[trigger] heap_holes(before).contains(hole) && within(
                a,
                s,
                hole.0 as int,
                hole.1 as int,
            ),
        holes_after_taking(before, after, a, s),
    ensures
        heap_wf(after),
        blocks_in_heap(lists, after),
        in_heap(after, a, s),
        free_of(lists, a, s),
        free_of_holes(after, a, s),
{
    let taken = choose|hole: (usize, usize)|
        #[trigger] heap_holes(before).contains(hole) && within(a, s, hole.0 as int, hole.1 as int);
    assert forall|hole: (usize, usize)| #[trigger] heap_holes(after).contains(hole) implies in_heap(
        after,
        hole.0 as int,
        hole.1 as int,
    ) && forall|i: int, k: int|
        0 <= i < lists.len() && 0 <= k < lists[i].len() ==> disjoint(
            #[trigger] lists[i][k] as int,
            block_size(i),
            hole.0 as int,
            hole.1 as int,
        ) by {
        let outer = choose|outer: (usize, usize)|
            #[trigger] heap_holes(before).contains(outer) && within(
                hole.0 as int,
                hole.1 as int,
                outer.0 as int,
                outer.1 as int,
            );
        assert(in_heap(before, outer.0 as int, outer.1 as int));
        assert(outer.0 > 0);
    }
    assert forall|i: int, k: int|
        0 <= i < lists.len() && 0 <= k < lists[i].len() implies disjoint(
        a,
        s,
        #[trigger] lists[i][k] as int,
        block_size(i),
    ) by {
        assert(free_of_holes(before, lists[i][k] as int, block_size(i)));
        assert(disjoint(lists[i][k] as int, block_size(i), taken.0 as int, taken.1 as int));
    }
    assert(in_heap(before, taken.0 as int, taken.1 as int));
}

/// An allocator with one free list per block size in `BLOCK_SIZES` and a
/// linked-list heap behind them.
pub struct FixedSizeBlockAllocator {
    /// For each size class, the addresses of its free blocks; the last one is
    /// the head, which is handed out first.
    list_heads: Vec<Vec<usize>>,
    fallback_allocator: Heap,
}

impl FixedSizeBlockAllocator {
    /// The free lists, one sequence of block addresses per size class, each
    /// ending with its head.
    pub closed spec fn free_lists(&self) -> Seq<Seq<usize>> {
        Seq::new(self.list_heads@.len(), |i: int| self.list_heads@[i]@)
    }

    /// The fallback heap.
    pub closed spec fn fallback(&self) -> Heap {
        self.fallback_allocator
    }

    /// The allocator is well formed: the free lists are, the heap is, and
    /// every free block lies in the heap's memory apart from its holes.
    pub open spec fn wf(&self) -> bool {
        &&& lists_wf(self.free_lists())
        &&& heap_wf(self.fallback())
        &&& blocks_in_heap(self.free_lists(), self.fallback())
    }

    /// Creates an allocator with empty free lists and a heap that owns no
    /// memory yet.
    pub fn new() -> (r: Self)
        ensures
            r.wf(),
            r.free_lists() == Seq::new(NUM_BLOCK_SIZES as nat, |i: int| Seq::<usize>::empty()),
            heap_size(r.fallback()) == 0,
    {
        let mut list_heads: Vec<Vec<usize>> = Vec::new();
        let mut i: usize = 0;
        while i < NUM_BLOCK_SIZES
            invariant
                i <= NUM_BLOCK_SIZES,
                list_heads@.len() == i,
                forall|j: int| 0 <= j < i ==> (#[trigger] list_heads@[j])@.len() == 0,
            decreases NUM_BLOCK_SIZES - i,
        {
            list_heads.push(Vec::new());
            i = i + 1;
        }
        let r = FixedSizeBlockAllocator { list_heads, fallback_allocator: heap_empty() };
        assert forall|j: int| 0 <= j < NUM_BLOCK_SIZES implies r.free_lists()[j] =~= Seq::<
            usize,
        >::empty() by {
            assert(list_heads@[j]@.len() == 0);
        }
        assert(r.free_lists() =~= Seq::new(NUM_BLOCK_SIZES as nat, |i: int| Seq::<usize>::empty()));
        r
    }

    /// Hands the memory of `mem` to the fallback heap, which then manages
    /// all of it (none, when it is too short for one hole). It is called
    /// once, before any block is handed out, so the free lists are empty;
    /// they stay so.
    pub fn init(&mut self, mem: &'static mut [MaybeUninit<u8>])
        requires
            old(self).wf(),
            forall|i: int| 0 <= i < NUM_BLOCK_SIZES ==> #[trigger] old(self).free_lists()[i].len() == 0,
        ensures
            final(self).wf(),
            final(self).free_lists() == old(self).free_lists(),
            heap_size(final(self).fallback()) == heap_size_of_slice(old(mem)@.len()),
    {
        self.fallback_allocator = heap_from_slice(mem);
    }

    /// Gives access to the fallback heap, to which the blocks that no size
    /// class fits are returned; the free lists stay as they are.
    pub fn fallback_allocator(&mut self) -> (heap: &mut Heap)
        ensures
            *heap == old(self).fallback(),
            final(self).fallback() == *final(heap),
            final(self).free_lists() == old(self).free_lists(),
    {
        &mut self.fallback_allocator
    }

    /// Allocates from the fallback heap the block that it hands out for
    /// `layout`; a refusal is answered with the null address 0 and leaves the
    /// heap as it was. A block handed out lies in the heap's memory, apart
    /// from every free block and every hole left.
    fn fallback_alloc(&mut self, layout: Layout) -> (ptr: usize)
        requires
            old(self).wf(),
            layout.size > 0,
            heap_layout_ok(layout.size, layout.align),
            heap_room(old(self).fallback(), layout.size, layout.align),
        ensures
            final(self).wf(),
            final(self).free_lists() == old(self).free_lists(),
            ptr == address_or_null(first_fit(old(self).fallback(), layout.size, layout.align)),
            heap_size(final(self).fallback()) == heap_size(old(self).fallback()),
            heap_size(old(self).fallback()) == 0 ==> ptr == 0,
            ptr == 0 ==> final(self).fallback() == old(self).fallback(),
            ptr != 0 ==> {
                &&& (ptr as int) % (layout.align as int) == 0
                &&& takes_one_block(old(self).fallback(), final(self).fallback(), ptr as int, layout.size)
                &&& in_heap(final(self).fallback(), ptr as int, layout.size as int)
                &&& free_of(final(self).free_lists(), ptr as int, layout.size as int)
                &&& free_of_holes(final(self).fallback(), ptr as int, layout.size as int)
            },
    {
        let ghost lists = self.free_lists();
        let ghost before = self.fallback_allocator;
        let answer = heap_allocate_first_fit(&mut self.fallback_allocator, layout.size, layout.align);
        assert(self.free_lists() =~= lists);
        match answer {
            Some(ptr) => {
                proof {
                    lemma_take_from_heap(
                        lists,
                        before,
                        self.fallback_allocator,
                        ptr as int,
                        layout.size as int,
                    );
                }
                ptr
            },
            None => 0,
        }
    }

    /// Allocates a block for `layout` and returns its address, or 0 when no
    /// memory is left. A layout with a size class takes the head of that
    /// class's free list, leaving the heap alone; when that list is empty, a
    /// fresh block of the class's size and alignment comes from the fallback
    /// heap. A layout too large for every class is served by the fallback
    /// heap directly. A block handed out is never in use: it lies in the
    /// heap's memory, apart from every free block and every hole, and a block
    /// of a size class can be given back.
    pub fn allocate(&mut self, layout: &Layout) -> (ptr: usize)
        requires
            old(self).wf(),
            layout.size > 0,
            heap_layout_ok(layout.size, layout.align),
            heap_room(
                old(self).fallback(),
                handed_out_size(*layout) as usize,
                handed_out_align(*layout) as usize,
            ),
        ensures
            final(self).wf(),
            heap_size(final(self).fallback()) == heap_size(old(self).fallback()),
            ptr != 0 ==> (ptr as int) % (layout.align as int) == 0,
            match list_index_spec(*layout) {
                Some(i) => if old(self).free_lists()[i].len() > 0 {
                    &&& ptr == old(self).free_lists()[i].last()
                    &&& final(self).free_lists() == pop_block(old(self).free_lists(), i)
                    &&& final(self).fallback() == old(self).fallback()
                } else {
                    &&& ptr == address_or_null(
                        first_fit(old(self).fallback(), block_size(i) as usize, block_size(i) as usize),
                    )
                    &&& final(self).free_lists() == old(self).free_lists()
                    &&& ptr == 0 ==> final(self).fallback() == old(self).fallback()
                    &&& ptr != 0 ==> takes_one_block(
                        old(self).fallback(),
                        final(self).fallback(),
                        ptr as int,
                        block_size(i) as usize,
                    )
                    &&& heap_size(old(self).fallback()) == 0 ==> ptr == 0
                },
                None => {
                    &&& ptr == address_or_null(first_fit(old(self).fallback(), layout.size, layout.align))
                    &&& final(self).free_lists() == old(self).free_lists()
                    &&& ptr == 0 ==> final(self).fallback() == old(self).fallback()
                    &&& ptr != 0 ==> takes_one_block(
                        old(self).fallback(),
                        final(self).fallback(),
                        ptr as int,
                        layout.size,
                    )
                    &&& heap_size(old(self).fallback()) == 0 ==> ptr == 0
                },
            },
            ptr != 0 ==> {
                &&& in_heap(final(self).fallback(), ptr as int, handed_out_size(*layout))
                &&& free_of(final(self).free_lists(), ptr as int, handed_out_size(*layout))
                &&& free_of_holes(final(self).fallback(), ptr as int, handed_out_size(*layout))
            },
            ptr != 0 ==> (list_index_spec(*layout) matches Some(i) ==> can_free(
                final(self).free_lists(),
                final(self).fallback(),
                ptr,
                i,
            )),
    {
        match list_index(layout) {
            Some(index) => {
                proof {
                    lemma_list_index_fits(*layout, index as int);
                    lemma_block_size_valid(index as int);
                }
                let ghost lists = self.free_lists();
                let ghost heap = self.fallback_allocator;
                match self.list_heads[index].pop() {
                    Some(node) => {
                        proof {
                            assert(self.free_lists() =~= pop_block(lists, index as int));
                            lemma_pop_block(lists, index as int);
                            let n = lists[index as int].len() - 1;
                            assert(node == lists[index as int][n]);
                            lemma_aligned_to_divisor(
                                node as int,
                                block_size(index as int),
                                layout.align as int,
                            );
                            let new = pop_block(lists, index as int);
                            assert forall|i: int, k: int|
                                0 <= i < new.len() && 0 <= k < new[i].len() implies {
                                &&& in_heap(heap, #[trigger] new[i][k] as int, block_size(i))
                                &&& free_of_holes(heap, new[i][k] as int, block_size(i))
                            } by {
                                assert(new[i][k] == lists[i][k]);
                            }
                        }
                        node
                    },
                    None => {
                        let ghost old_layout = *layout;
                        let block_size = block_size_of(index);
                        let block_align = block_size;
                        let layout = Layout::from_size_align(block_size, block_align).unwrap();
                        proof {
                            assert(self.free_lists() =~= lists);
                            lemma_block_layout_ok(index as int);
                        }
                        let ptr = self.fallback_alloc(layout);
                        proof {
                            if ptr != 0 {
                                lemma_aligned_to_divisor(
                                    ptr as int,
                                    block_size as int,
                                    old_layout.align as int,
                                );
                            }
                        }
                        ptr
                    },
                }
            },
            None => {
                proof {
                    lemma_list_index_none(*layout);
                }
                self.fallback_alloc(*layout)
            },
        }
    }

    /// Frees the block at `ptr` that was allocated for `layout`. When the
    /// layout has a size class, the block becomes the head of that class's
    /// free list and `true` is returned. Otherwise the free lists are left
    /// alone and `false` tells the caller that the block belongs to the
    /// fallback heap, to which it must be returned. The heap is not touched.
    pub fn deallocate(&mut self, ptr: usize, layout: &Layout) -> (kept: bool)
        requires
            old(self).wf(),
            list_index_spec(*layout) matches Some(i) ==> can_free(
                old(self).free_lists(),
                old(self).fallback(),
                ptr,
                i,
            ),
            list_index_spec(*layout) is None ==> ptr != 0,
        ensures
            final(self).wf(),
            kept == (list_index_spec(*layout) is Some),
            final(self).fallback() == old(self).fallback(),
            match list_index_spec(*layout) {
                Some(i) => final(self).free_lists() == push_block(old(self).free_lists(), i, ptr),
                None => final(self).free_lists() == old(self).free_lists(),
            },
    {
        match list_index(layout) {
            Some(index) => {
                let ghost lists = self.free_lists();
                let ghost heap = self.fallback_allocator;
                proof {
                    lemma_first_fitting_class(required_block_size(*layout), 0);
                    assert(self.list_heads@.len() == NUM_BLOCK_SIZES);
                }
                self.list_heads[index].push(ptr);
                proof {
                    assert(self.free_lists()[index as int] =~= lists[index as int].push(ptr));
                    assert(self.free_lists() =~= push_block(lists, index as int, ptr));
                    lemma_freed_block_is_reused(lists, heap, ptr, index as int);
                }
                true
            },
            None => false,
        }
    }
}

} // verus!
