//! Heap placement and the arithmetic shared by the allocators.

use vstd::prelude::*;
use vstd::arithmetic::div_mod::{lemma_fundamental_div_mod, lemma_mod_multiples_basic};
use vstd::arithmetic::power2::is_pow2;
use vstd::layout::valid_layout;

pub mod fixed_size_block;
pub mod linked_list;

verus! {

/// The virtual address at which the kernel heap starts.
pub const HEAP_START: u64 = 0x_4444_4444_0000;

/// The size of the kernel heap: 100 KiB.
pub const HEAP_SIZE: usize = 100 * 1024;

/// The size of a 4 KiB page.
pub const PAGE_SIZE: u64 = 4096;

/// The first address past the lower half of the canonical address space.
pub const LOWER_HALF_END: u64 = 0x8000_0000_0000;

/// The first address of the upper half of the canonical address space.
pub const UPPER_HALF_START: u64 = 0xffff_8000_0000_0000;

/// An address that `VirtAddr::new` accepts: bits 47 to 63 are all zero, all
/// one, or only bit 47 is set.
pub open spec fn virt_addr_accepted(addr: u64) -> bool {
    let high = addr / 0x8000_0000_0000;
    high == 0 || high == 1 || high == 0x1ffff
}

/// The canonical address that `VirtAddr::new` makes of `addr`: bit 47 is
/// copied into bits 48 to 63.
pub open spec fn virt_addr_canonical(addr: u64) -> int {
    if addr / 0x8000_0000_0000 == 1 {
        addr + 0xffff_0000_0000_0000
    } else {
        addr as int
    }
}

/// Calls `Page::<Size4KiB>::containing_address` on the virtual address that
/// `VirtAddr::new` makes of `addr`, and gives the page's start address: the
/// canonical address rounded down to a multiple of 4096. `VirtAddr::new`
/// panics on an address it does not accept.
#[verifier::external_body]
fn page_containing(addr: u64) -> (r: u64)
    requires
        virt_addr_accepted(addr),
    ensures
        r == virt_addr_canonical(addr) - virt_addr_canonical(addr) % 4096,
{
    x86_64::structures::paging::Page::<x86_64::structures::paging::Size4KiB>::containing_address(
        x86_64::VirtAddr::new(addr),
    ).start_address().as_u64()
}

/// The start of the page that holds the heap's first byte.
pub open spec fn first_heap_page(heap_start: int) -> int {
    heap_start - heap_start % 4096
}

/// The start of the page that holds the heap's last byte.
pub open spec fn last_heap_page(heap_start: int, heap_size: int) -> int {
    (heap_start + heap_size - 1) - (heap_start + heap_size - 1) % 4096
}

/// The number of pages from the first heap page to the last, both included.
pub open spec fn heap_page_count(heap_start: int, heap_size: int) -> int {
    (last_heap_page(heap_start, heap_size) - first_heap_page(heap_start)) / 4096 + 1
}

/// The start addresses of the 4 KiB pages that the heap `[heap_start,
/// heap_start + heap_size)` lies in, from the first to the last, each of
/// which must be mapped before the heap is used. The heap lies within one
/// half of the canonical address space, lower or upper.
pub fn heap_pages(heap_start: u64, heap_size: u64) -> (pages: Vec<u64>)
    requires
        heap_size > 0,
        heap_start + heap_size <= LOWER_HALF_END || (heap_start >= UPPER_HALF_START
            && heap_start + heap_size <= u64::MAX + 1),
    ensures
        pages.len() == heap_page_count(heap_start as int, heap_size as int),
        forall|i: int|
            0 <= i < pages.len() ==> #[trigger] pages[i] == first_heap_page(heap_start as int) + 4096
                * i,
{
    let heap_end = heap_start + (heap_size - 1);
    let heap_start_page = page_containing(heap_start);
    let heap_end_page = page_containing(heap_end);
    proof {
        lemma_align_up_bounds(heap_start as int, 4096);
        lemma_align_up_bounds(heap_end as int, 4096);
        lemma_page_difference(heap_start as int, heap_end as int);
    }
    let count: u64 = (heap_end_page - heap_start_page) / PAGE_SIZE + 1;
    let mut pages: Vec<u64> = Vec::new();
    let mut i: u64 = 0;
    while i < count
        invariant
            i <= count,
            count == (heap_end_page - heap_start_page) / 4096 + 1,
            (heap_end_page - heap_start_page) % 4096 == 0,
            heap_start_page <= heap_end_page,
            heap_start_page == first_heap_page(heap_start as int),
            heap_end_page == last_heap_page(heap_start as int, heap_size as int),
            pages.len() == i,
            forall|j: int| 0 <= j < pages.len() ==> #[trigger] pages[j] == heap_start_page + 4096 * j,
        decreases count - i,
    {
        assert(4096 * i <= heap_end_page - heap_start_page) by (nonlinear_arith)
            requires
                i < count,
                count == (heap_end_page - heap_start_page) / 4096 + 1,
                (heap_end_page - heap_start_page) % 4096 == 0,
                heap_start_page <= heap_end_page,
        {
            lemma_fundamental_div_mod((heap_end_page - heap_start_page) as int, 4096);
        }
        pages.push(heap_start_page + PAGE_SIZE * i);
        i = i + 1;
    }
    pages
}

/// Two page starts that round down addresses `a <= b` are a whole number of
/// pages apart, the second not below the first.
proof fn lemma_page_difference(a: int, b: int)
    requires
        0 <= a <= b,
    ensures
        ((b - b % 4096) - (a - a % 4096)) % 4096 == 0,
        a - a % 4096 <= b - b % 4096,
{
    lemma_fundamental_div_mod(a, 4096);
    lemma_fundamental_div_mod(b, 4096);
    assert((b - b % 4096) - (a - a % 4096) == (b / 4096 - a / 4096) * 4096) by (nonlinear_arith)
        requires
            a == 4096 * (a / 4096) + a % 4096,
            b == 4096 * (b / 4096) + b % 4096,
    ;
    lemma_mod_multiples_basic(b / 4096 - a / 4096, 4096);
    vstd::arithmetic::div_mod::lemma_div_is_ordered(a, b, 4096);
}

/// Every byte of the heap lies in one of its pages: the byte at `addr` lies
/// in the page with index `(addr - first page) / 4096`.
pub proof fn lemma_heap_pages_cover(heap_start: int, heap_size: int, addr: int)
    requires
        heap_start >= 0,
        heap_size > 0,
        heap_start <= addr < heap_start + heap_size,
    ensures
        ({
            let i = (addr - first_heap_page(heap_start)) / 4096;
            &&& 0 <= i < heap_page_count(heap_start, heap_size)
            &&& first_heap_page(heap_start) + 4096 * i <= addr < first_heap_page(heap_start)
                + 4096 * i + 4096
        }),
{
    let end = heap_start + heap_size - 1;
    let q = heap_start / 4096;
    lemma_fundamental_div_mod(heap_start, 4096);
    lemma_fundamental_div_mod(addr, 4096);
    lemma_fundamental_div_mod(end, 4096);
    let first = first_heap_page(heap_start);
    let last = last_heap_page(heap_start, heap_size);
    assert(first == 4096 * q);
    assert(addr - first == 4096 * (addr / 4096 - q) + addr % 4096) by (nonlinear_arith)
        requires
            addr == 4096 * (addr / 4096) + addr % 4096,
            first == 4096 * q,
    ;
    vstd::arithmetic::div_mod::lemma_fundamental_div_mod_converse(
        addr - first,
        4096,
        addr / 4096 - q,
        addr % 4096,
    );
    assert(last - first == 4096 * (end / 4096 - q) + 0) by (nonlinear_arith)
        requires
            last == end - end % 4096,
            end == 4096 * (end / 4096) + end % 4096,
            first == 4096 * q,
    ;
    vstd::arithmetic::div_mod::lemma_fundamental_div_mod_converse(
        last - first,
        4096,
        end / 4096 - q,
        0,
    );
    vstd::arithmetic::div_mod::lemma_div_is_ordered(heap_start, addr, 4096);
    vstd::arithmetic::div_mod::lemma_div_is_ordered(addr, end, 4096);
}

/// The value of `align_up(addr, align)`: the smallest multiple of `align`
/// that is at least `addr`.
pub open spec fn align_up_spec(addr: int, align: int) -> int
    recommends
        align > 0,
{
    if addr % align == 0 {
        addr
    } else {
        addr - addr % align + align
    }
}

/// The facts about `align_up_spec` that its users rely on: the result is a
/// multiple of `align`, lies in `[addr, addr + align)`, and equals `addr`
/// exactly when `addr` is already aligned.
pub proof fn lemma_align_up_bounds(addr: int, align: int)
    requires
        align > 0,
    ensures
        align_up_spec(addr, align) % align == 0,
        addr <= align_up_spec(addr, align) < addr + align,
        (align_up_spec(addr, align) == addr) == (addr % align == 0),
        addr >= 0 ==> addr % align <= addr,
{
    lemma_fundamental_div_mod(addr, align);
    let q = addr / align;
    if addr % align != 0 {
        assert(addr - addr % align + align == (q + 1) * align) by (nonlinear_arith)
            requires
                addr == align * q + addr % align,
        ;
        lemma_mod_multiples_basic(q + 1, align);
    }
    if addr >= 0 {
        assert(addr % align <= addr) by (nonlinear_arith)
            requires
                addr == align * q + addr % align,
                addr >= 0,
                align > 0,
                0 <= addr % align < align,
        ;
    }
}

/// `align_up` gives the smallest multiple of `align` that is at least
/// `addr`: no multiple of `align` lies in `[addr, align_up(addr, align))`.
pub proof fn lemma_align_up_least(addr: int, align: int, m: int)
    requires
        align > 0,
        m % align == 0,
        m >= addr,
    ensures
        m >= align_up_spec(addr, align),
{
    lemma_align_up_bounds(addr, align);
    lemma_fundamental_div_mod(addr, align);
    lemma_fundamental_div_mod(m, align);
    if addr % align != 0 {
        let q = addr / align;
        let p = m / align;
        assert(m >= align_up_spec(addr, align)) by (nonlinear_arith)
            requires
                addr == align * q + addr % align,
                0 < addr % align < align,
                m == align * p,
                m >= addr,
                align_up_spec(addr, align) == addr - addr % align + align,
        ;
    }
}

/// Aligning twice is aligning once: an aligned address stays where it is.
pub proof fn lemma_align_up_idempotent(addr: int, align: int)
    requires
        align > 0,
    ensures
        align_up_spec(align_up_spec(addr, align), align) == align_up_spec(addr, align),
{
    lemma_align_up_bounds(addr, align);
    lemma_align_up_bounds(align_up_spec(addr, align), align);
}

/// Aligns the given address `addr` upwards to alignment `align`.
pub fn align_up(addr: usize, align: usize) -> (r: usize)
    requires
        align > 0,
        addr % align == 0 || addr - addr % align + align <= usize::MAX,
    ensures
        r == align_up_spec(addr as int, align as int),
        r % align == 0,
        addr <= r < addr + align,
{
    proof {
        lemma_align_up_bounds(addr as int, align as int);
    }
    let remainder = addr % align;
    if remainder == 0 {
        addr
    } else {
        addr - remainder + align
    }
}

/// Size and alignment of a block of memory that is asked for or given back.
#[derive(Clone, Copy, Debug, PartialEq, Eq)]
pub struct Layout {
    pub size: usize,
    pub align: usize,
}

impl Layout {
    /// A layout is valid when its alignment is a power of two and its size,
    /// rounded up to that alignment, does not exceed `isize::MAX`.
    pub open spec fn is_valid(&self) -> bool {
        valid_layout(self.size, self.align)
    }

    /// Makes a layout of `size` bytes aligned to `align`, or `None` when the
    /// pair is not a valid layout.
    pub fn from_size_align(size: usize, align: usize) -> (r: Option<Layout>)
        ensures
            r is Some <==> valid_layout(size, align),
            r matches Some(l) ==> l.size == size && l.align == align,
    {
        if !is_power_of_two(align) {
            return None;
        }
        proof {
            reveal(is_pow2);
        }
        let max_size: usize = isize::MAX as usize;
        proof {
            lemma_align_up_bounds(max_size as int, align as int);
        }
        if size > max_size - max_size % align {
            return None;
        }
        Some(Layout { size, align })
    }

    /// The number of bytes asked for.
    pub fn size(&self) -> (r: usize)
        ensures
            r == self.size,
    {
        self.size
    }

    /// The alignment asked for.
    pub fn align(&self) -> (r: usize)
        ensures
            r == self.align,
    {
        self.align
    }
}

/// Whether `n` is a power of two.
pub fn is_power_of_two(n: usize) -> (r: bool)
    ensures
        r == is_pow2(n as int),
{
    proof {
        reveal(is_pow2);
    }
    if n == 0 {
        return false;
    }
    let mut m: usize = n;
    while m > 1 && m % 2 == 0
        invariant
            m > 0,
            is_pow2(n as int) == is_pow2(m as int),
        decreases m,
    {
        proof {
            reveal(is_pow2);
        }
        m = m / 2;
    }
    m == 1
}

} // verus!
