//! Fixed-size-block allocator: one LIFO free list per size class, with a
//! first-fit fallback allocator for oversized requests and for the first
//! block of each class.

use crate::size_class::{
    block_size, class_block_size, class_of, lemma_class_is_smallest_fit, list_index, CLASS_COUNT,
};
use crate::heap::{Allocator, MIN_HEAP_SIZE};
use core::mem::MaybeUninit;
use linked_list_allocator::Heap;
use vstd::prelude::*;

verus! {

#[verifier::external_type_specification]
#[verifier::external_body]
pub struct ExFallbackHeap(linked_list_allocator::Heap);

/// Bytes the fallback heap has handed out and not taken back
/// (`Heap::used`).
pub uninterp spec fn fallback_used(h: Heap) -> nat;

/// Bytes of memory the fallback heap manages (`Heap::size`).
pub uninterp spec fn fallback_size(h: Heap) -> nat;

/// Lowest address of the fallback heap's memory (`Heap::bottom`).
pub uninterp spec fn fallback_bottom(h: Heap) -> nat;

/// Bytes in a machine word.
pub open spec fn word_bytes() -> int {
    (usize::BITS / 8) as int
}

/// Bytes the fallback heap sets aside for a request of `size` bytes: at
/// least two words, rounded up to a whole word.
pub open spec fn fallback_block_size(size: usize) -> int {
    let w = word_bytes();
    let m = if size < 2 * w {
        2 * w
    } else {
        size as int
    };
    ((m + w - 1) / w) * w
}

/// Relies on `linked_list_allocator::Heap::empty`: a heap with no memory,
/// nothing handed out.
pub assume_specification[ linked_list_allocator::Heap::empty ]() -> (r:
    linked_list_allocator::Heap)
    ensures
        fallback_size(r) == 0,
        fallback_used(r) == 0,
;

/// Whether the fallback heap `h` can take a request of `size` bytes aligned
/// to `align` with its address arithmetic inside a machine word: the heap's
/// end, plus the alignment, the block and room for two hole records, stays
/// within `usize::MAX`.
pub open spec fn fallback_request_fits(h: Heap, size: usize, align: usize) -> bool {
    fallback_bottom(h) + fallback_size(h) + align + fallback_block_size(size) + 4 * word_bytes()
        <= usize::MAX
}

/// What a request of `size` bytes aligned to `align`, put to the fallback
/// heap `before`, leaves: the heap `after` and the result `r`. The region
/// stays; a heap without memory, or one the request does not fit, gives
/// nothing; a failure uses no bytes; a block is aligned, lies in the region,
/// and adds its rounded-up size to the bytes in use, which stay within the
/// region's size.
pub open spec fn fallback_outcome(
    before: Heap,
    after: Heap,
    size: usize,
    align: usize,
    r: Option<usize>,
) -> bool {
    &&& fallback_size(after) == fallback_size(before)
    &&& fallback_bottom(after) == fallback_bottom(before)
    &&& (fallback_size(before) == 0 || !fallback_request_fits(before, size, align)) ==> r is None
    &&& r is None ==> fallback_used(after) == fallback_used(before)
    &&& r is Some ==> {
        &&& r->0 != 0
        &&& r->0 as int % align as int == 0
        &&& fallback_bottom(before) <= r->0
        &&& r->0 + size <= fallback_bottom(before) + fallback_size(before)
        &&& fallback_used(after) == fallback_used(before) + fallback_block_size(size)
        &&& fallback_used(after) <= fallback_size(after)
    }
}

/// Relies on `linked_list_allocator::Heap::allocate_first_fit`: a block it
/// hands out is cut from a free hole of the heap's memory, starts at an
/// address aligned up to the requested alignment, and adds its rounded-up
/// size to the bytes in use; a failed request changes no count, and a heap
/// without memory fails every request. A size and alignment that `Layout`
/// refuses get no block.
#[verifier::external_body]
fn fallback_alloc(heap: &mut Heap, size: usize, align: usize) -> (r: Option<usize>)
    requires
        fallback_request_fits(*old(heap), size, align),
    ensures
        fallback_outcome(*old(heap), *final(heap), size, align, r),
{
    let layout = core::alloc::Layout::from_size_align(size, align).ok()?;
    heap.allocate_first_fit(layout).ok().map(|p| p.addr().get())
}

/// Relies on `linked_list_allocator::Heap::bottom`: the address of the
/// heap's lowest byte.
#[verifier::external_body]
fn fallback_bottom_addr(heap: &Heap) -> (r: usize)
    ensures
        r == fallback_bottom(*heap),
{
    heap.bottom().addr()
}

/// Relies on `linked_list_allocator::Heap::size`: the bytes of memory the
/// heap manages.
#[verifier::external_body]
fn fallback_size_of(heap: &Heap) -> (r: usize)
    ensures
        r == fallback_size(*heap),
{
    heap.size()
}

/// Whether the fallback heap can take the request without its address
/// arithmetic overflowing.
fn fallback_fits(heap: &Heap, size: usize, align: usize) -> (r: bool)
    ensures
        r == fallback_request_fits(*heap, size, align),
{
    let end = fallback_bottom_addr(heap) as u128 + fallback_size_of(heap) as u128;
    let w = (usize::BITS / 8) as u128;
    let m = if (size as u128) < 2 * w {
        2 * w
    } else {
        size as u128
    };
    let block = ((m + w - 1) / w) * w;
    assert(block == fallback_block_size(size)) by (nonlinear_arith)
        requires
            w == word_bytes(),
            w == 4 || w == 8,
            m as int == if (size as int) < 2 * w as int {
                2 * w as int
            } else {
                size as int
            },
            block as int == ((m as int + w as int - 1) / w as int) * w as int,
    ;
    end + align as u128 + block + 4 * w <= usize::MAX as u128
}

/// Relies on `linked_list_allocator::Heap::from_slice`: a fresh heap over
/// `mem` with nothing handed out, which does not panic on at least three
/// words of memory. Up to a word at each end of `mem` may go to alignment.
#[verifier::external_body]
fn fallback_from_slice(mem: &'static mut [MaybeUninit<u8>]) -> (r: Heap)
    requires
        old(mem)@.len() >= MIN_HEAP_SIZE,
    ensures
        fallback_used(r) == 0,
        fallback_size(r) <= old(mem)@.len() < fallback_size(r) + 16,
{
    Heap::from_slice(mem)
}

/// What an allocation that finds no free block asks of the fallback
/// allocator: one block of its class, or the request as it is when no class
/// fits.
pub open spec fn fallback_request(size: usize, align: usize) -> (usize, usize) {
    match class_of(size, align) {
        Some(i) => (class_block_size(i as int) as usize, class_block_size(i as int) as usize),
        None => (size, align),
    }
}

/// The alignment that a block handed out for the request is guaranteed:
/// the block size of its class, or the requested alignment when no class
/// fits.
pub open spec fn guaranteed_alignment(size: usize, align: usize) -> int {
    match class_of(size, align) {
        Some(i) => class_block_size(i as int),
        None => align as int,
    }
}

/// The free block that an allocation takes from its class list, if that
/// list is not empty: the one freed last.
pub open spec fn reused_block(lists: Seq<Seq<usize>>, size: usize, align: usize) -> Option<usize> {
    match class_of(size, align) {
        Some(i) => if lists[i as int].len() > 0 {
            Some(lists[i as int].last())
        } else {
            None
        },
        None => None,
    }
}

/// The free lists after an allocation: the reused block leaves its list.
pub open spec fn lists_after_alloc(lists: Seq<Seq<usize>>, size: usize, align: usize) -> Seq<
    Seq<usize>,
> {
    match class_of(size, align) {
        Some(i) => if lists[i as int].len() > 0 {
            lists.update(i as int, lists[i as int].drop_last())
        } else {
            lists
        },
        None => lists,
    }
}

/// The free lists after a block is freed: a block of a class goes on top
/// of its class list; an oversized one leaves them as they are.
pub open spec fn lists_after_dealloc(
    lists: Seq<Seq<usize>>,
    addr: usize,
    size: usize,
    align: usize,
) -> Seq<Seq<usize>> {
    match class_of(size, align) {
        Some(i) => lists.update(i as int, lists[i as int].push(addr)),
        None => lists,
    }
}

/// Whether a block at `addr` may be freed with this request: it is not
/// null and, where a class fits, aligned to that class, as every block
/// handed out for the request is.
pub open spec fn valid_block(addr: usize, size: usize, align: usize) -> bool {
    addr != 0 && addr as int % guaranteed_alignment(size, align) == 0
}

/// Where a reallocation went: the new block, the number of leading bytes to
/// carry over from the old one, and whether the old block stayed with a
/// class list (`false`: it is to be handed back to the fallback allocator).
pub struct Realloc {
    pub new_addr: usize,
    pub copy_len: usize,
    pub old_kept: bool,
}

/// The allocator: a free list of block addresses per size class and the
/// fallback allocator over the heap region.
pub struct FixedSizeBlockAllocator {
    list_heads: Vec<Vec<usize>>,
    /// The fallback allocator; its region is given to it at initialisation.
    pub fallback_allocator: Heap,
}

impl FixedSizeBlockAllocator {
    /// The free lists, one per class; the last element of each is its head.
    pub closed spec fn lists(&self) -> Seq<Seq<usize>> {
        Seq::new(self.list_heads@.len(), |i: int| self.list_heads@[i]@)
    }

    /// The fallback allocator's state.
    pub closed spec fn fallback(&self) -> Heap {
        self.fallback_allocator
    }

    /// Whether `addr` is on one of the free lists.
    pub open spec fn is_listed(&self, addr: usize) -> bool {
        exists|i: int| 0 <= i < CLASS_COUNT && #[trigger] self.lists()[i].contains(addr)
    }

    /// One list per class, each holding non-null blocks aligned to their
    /// class size, and no block listed twice.
    pub open spec fn wf(&self) -> bool {
        &&& self.lists().len() == CLASS_COUNT
        &&& forall|i: int, k: int|
            #![trigger self.lists()[i][k]]
            0 <= i < CLASS_COUNT && 0 <= k < self.lists()[i].len() ==> self.lists()[i][k] != 0
                && self.lists()[i][k] as int % class_block_size(i) == 0
        &&& forall|i: int, k: int, j: int, l: int|
            #![trigger self.lists()[i][k], self.lists()[j][l]]
            0 <= i < CLASS_COUNT && 0 <= j < CLASS_COUNT && 0 <= k < self.lists()[i].len() && 0
                <= l < self.lists()[j].len() && (i != j || k != l) ==> self.lists()[i][k]
                != self.lists()[j][l]
    }

    /// An allocator with empty free lists and a fallback allocator that has
    /// no memory yet.
    pub fn new() -> (r: Self)
        ensures
            r.wf(),
            forall|i: int| 0 <= i < CLASS_COUNT ==> r.lists()[i] == Seq::<usize>::empty(),
            fallback_size(r.fallback()) == 0,
            fallback_used(r.fallback()) == 0,
    {
        let mut list_heads: Vec<Vec<usize>> = Vec::new();
        let mut i: usize = 0;
        while i < CLASS_COUNT
            invariant
                i <= CLASS_COUNT,
                list_heads@.len() == i,
                forall|j: int| 0 <= j < i ==> list_heads@[j]@ == Seq::<usize>::empty(),
            decreases CLASS_COUNT - i,
        {
            list_heads.push(Vec::new());
            i = i + 1;
        }
        let r = FixedSizeBlockAllocator { list_heads, fallback_allocator: Heap::empty() };
        assert forall|i: int| 0 <= i < CLASS_COUNT implies r.lists()[i] == Seq::<usize>::empty() by {
        }
        r
    }

    /// Whether `addr` is on one of the free lists, that is, already free.
    pub fn holds_free_block(&self, addr: usize) -> (r: bool)
        requires
            self.wf(),
        ensures
            r == self.is_listed(addr),
    {
        let mut i: usize = 0;
        while i < CLASS_COUNT
            invariant
                self.wf(),
                i <= CLASS_COUNT,
                forall|j: int| 0 <= j < i ==> !(#[trigger] self.lists()[j].contains(addr)),
            decreases CLASS_COUNT - i,
        {
            let list = &self.list_heads[i];
            assert(list@ == self.lists()[i as int]);
            let mut k: usize = 0;
            while k < list.len()
                invariant
                    self.wf(),
                    i < CLASS_COUNT,
                    k <= list@.len(),
                    list@ == self.lists()[i as int],
                    forall|m: int| 0 <= m < k ==> list@[m] != addr,
                decreases list@.len() - k,
            {
                if list[k] == addr {
                    assert(self.lists()[i as int].contains(addr));
                    return true;
                }
                k = k + 1;
            }
            i = i + 1;
        }
        false
    }

    /// Allocates a block for `size` bytes aligned to `align`.
    ///
    /// A request that fits a class takes the head of that class list when
    /// there is one, and otherwise one block of the class size from the
    /// fallback allocator; a larger request goes to the fallback allocator as
    /// it is. `None` reports that the fallback allocator had no room.
    pub fn allocate(&mut self, size: usize, align: usize) -> (r: Option<usize>)
        requires
            old(self).wf(),
        ensures
            final(self).wf(),
            final(self).lists() == lists_after_alloc(old(self).lists(), size, align),
            r is Some ==> r->0 != 0 && r->0 as int % guaranteed_alignment(size, align) == 0,
            reused_block(old(self).lists(), size, align) is Some ==> r == reused_block(
                old(self).lists(),
                size,
                align,
            ) && final(self).fallback() == old(self).fallback(),
            reused_block(old(self).lists(), size, align) is None ==> fallback_outcome(
                old(self).fallback(),
                final(self).fallback(),
                fallback_request(size, align).0,
                fallback_request(size, align).1,
                r,
            ),
    {
        match list_index(size, align) {
            Some(index) => {
                if self.list_heads[index].len() > 0 {
                    let ghost pre = self.lists();
                    let addr = self.list_heads[index].pop().unwrap();
                    assert(self.lists() =~= pre.update(index as int, pre[index as int].drop_last()));
                    assert forall|i: int, k: int|
                        0 <= i < CLASS_COUNT && 0 <= k < self.lists()[i].len() implies #[trigger] self.lists()[i][k]
                        == pre[i][k] && k < pre[i].len() by {
                        if i == index {
                            assert(self.lists()[i][k] == pre[i][k]);
                        }
                    }
                    assert(self.wf()) by {
                        assert forall|i: int, k: int, j: int, l: int|
                            0 <= i < CLASS_COUNT && 0 <= j < CLASS_COUNT && 0 <= k
                                < self.lists()[i].len() && 0 <= l < self.lists()[j].len() && (i
                                != j || k != l) implies #[trigger] self.lists()[i][k]
                            != #[trigger] self.lists()[j][l] by {
                            assert(pre[i][k] != pre[j][l]);
                        }
                    }
                    assert(addr == pre[index as int][pre[index as int].len() - 1]);
                    Some(addr)
                } else {
                    let size_of_block = block_size(index);
                    if !fallback_fits(&self.fallback_allocator, size_of_block, size_of_block) {
                        return None;
                    }
                    let ghost pre = self.lists();
                    let r = fallback_alloc(&mut self.fallback_allocator, size_of_block, size_of_block);
                    assert(self.lists() =~= pre);
                    r
                }
            },
            None => {
                if !fallback_fits(&self.fallback_allocator, size, align) {
                    return None;
                }
                let ghost pre = self.lists();
                let r = fallback_alloc(&mut self.fallback_allocator, size, align);
                assert(self.lists() =~= pre);
                r
            },
        }
    }

    /// Frees the block at `addr` that was allocated for `size` bytes aligned
    /// to `align` and is not free already.
    ///
    /// A block of a class becomes the head of that class list, and `true`
    /// comes back. An oversized block belongs to the fallback allocator:
    /// nothing changes here, `false` comes back, and the caller hands the
    /// block to `fallback_allocator`.
    pub fn deallocate(&mut self, addr: usize, size: usize, align: usize) -> (kept: bool)
        requires
            old(self).wf(),
            valid_block(addr, size, align),
            !old(self).is_listed(addr),
        ensures
            final(self).wf(),
            kept == class_of(size, align) is Some,
            final(self).lists() == lists_after_dealloc(old(self).lists(), addr, size, align),
            final(self).fallback() == old(self).fallback(),
    {
        match list_index(size, align) {
            Some(index) => {
                let ghost pre = self.lists();
                self.list_heads[index].push(addr);
                assert(self.lists() =~= pre.update(index as int, pre[index as int].push(addr)));
                assert forall|i: int, k: int|
                    0 <= i < CLASS_COUNT && 0 <= k < self.lists()[i].len() && !(i == index && k
                        == pre[i].len()) implies #[trigger] self.lists()[i][k] == pre[i][k] && k
                    < pre[i].len() by {
                    if i == index {
                        assert(self.lists()[i][k] == pre[i][k]);
                    }
                }
                assert forall|i: int, k: int|
                    0 <= i < CLASS_COUNT && 0 <= k < pre[i].len() implies #[trigger] pre[i][k]
                    != addr by {
                    if pre[i][k] == addr {
                        assert(pre[i].contains(addr));
                    }
                }
                assert(self.wf()) by {
                    assert forall|i: int, k: int|
                        0 <= i < CLASS_COUNT && 0 <= k < self.lists()[i].len() implies #[trigger] self.lists()[i][k] != 0
                        && self.lists()[i][k] as int % class_block_size(i) == 0 by {
                        if i == index && k < pre[i].len() {
                            assert(self.lists()[i][k] == pre[i][k]);
                        }
                    }
                    assert forall|i: int, k: int, j: int, l: int|
                        0 <= i < CLASS_COUNT && 0 <= j < CLASS_COUNT && 0 <= k
                            < self.lists()[i].len() && 0 <= l < self.lists()[j].len() && (i != j
                            || k != l) implies #[trigger] self.lists()[i][k]
                        != #[trigger] self.lists()[j][l] by {
                        let new_i = i == index && k == pre[i].len();
                        let new_j = j == index && l == pre[j].len();
                        if new_i {
                            assert(self.lists()[i][k] == addr);
                            assert(pre[j][l] != addr);
                        } else if new_j {
                            assert(self.lists()[j][l] == addr);
                            assert(pre[i][k] != addr);
                        } else {
                            assert(pre[i][k] != pre[j][l]);
                        }
                    }
                }
                true
            },
            None => false,
        }
    }

    /// Moves the block at `addr`, allocated for `size` bytes aligned to
    /// `align`, to a new block of `new_size` bytes with the same alignment.
    ///
    /// The new block is allocated first; only when that succeeds is the old
    /// block freed, and the caller then carries over its first
    /// `min(size, new_size)` bytes before the old block is reused. When the
    /// allocation fails, `None` comes back and nothing has changed.
    pub fn reallocate(&mut self, addr: usize, size: usize, align: usize, new_size: usize) -> (r:
        Option<Realloc>)
        requires
            old(self).wf(),
            valid_block(addr, size, align),
            !old(self).is_listed(addr),
        ensures
            final(self).wf(),
            reused_block(old(self).lists(), new_size, align) is Some ==> r is Some
                && r->0.new_addr == reused_block(old(self).lists(), new_size, align)->0
                && r->0.new_addr != addr,
            r is None ==> final(self).lists() == old(self).lists(),
            reused_block(old(self).lists(), new_size, align) is Some ==> final(self).fallback()
                == old(self).fallback(),
            reused_block(old(self).lists(), new_size, align) is None ==> fallback_outcome(
                old(self).fallback(),
                final(self).fallback(),
                fallback_request(new_size, align).0,
                fallback_request(new_size, align).1,
                match r {
                    Some(m) => Some(m.new_addr),
                    None => None,
                },
            ),
            r is Some ==> {
                let m = r->0;
                &&& final(self).lists() == lists_after_dealloc(
                    lists_after_alloc(old(self).lists(), new_size, align),
                    addr,
                    size,
                    align,
                )
                &&& m.new_addr != 0
                &&& m.new_addr as int % guaranteed_alignment(new_size, align) == 0
                &&& m.copy_len == if size <= new_size {
                    size
                } else {
                    new_size
                }
                &&& m.old_kept == class_of(size, align) is Some
            },
    {
        let ghost pre = self.lists();
        match self.allocate(new_size, align) {
            Some(new_addr) => {
                proof {
                    if reused_block(pre, new_size, align) is Some {
                        let i = class_of(new_size, align)->0 as int;
                        lemma_class_is_smallest_fit(new_size, align);
                        assert(pre[i].contains(new_addr));
                    }
                    assert forall|i: int| 0 <= i < CLASS_COUNT implies !(
                    #[trigger] self.lists()[i].contains(addr)) by {
                        if self.lists()[i].contains(addr) {
                            let k = choose|k: int| 0 <= k < self.lists()[i].len() && self.lists()[i][k] == addr;
                            if i == class_of(new_size, align)->0 as int && reused_block(pre, new_size, align) is Some {
                                assert(self.lists()[i][k] == pre[i][k]);
                            } else {
                                assert(self.lists()[i] == pre[i]);
                            }
                            assert(pre[i].contains(addr));
                        }
                    }
                }
                let copy_len = if size <= new_size {
                    size
                } else {
                    new_size
                };
                let old_kept = self.deallocate(addr, size, align);
                Some(Realloc { new_addr, copy_len, old_kept })
            },
            None => None,
        }
    }
}

impl Allocator for FixedSizeBlockAllocator {
    /// Makes `heap` the fallback allocator's memory, with nothing handed
    /// out; the free lists stay as they are.
    fn init(&mut self, heap: &'static mut [MaybeUninit<u8>])
        ensures
            old(self).wf() ==> final(self).wf(),
            final(self).lists() == old(self).lists(),
            fallback_used(final(self).fallback()) == 0,
            fallback_size(final(self).fallback()) <= old(heap)@.len() < fallback_size(
                final(self).fallback(),
            ) + 16,
    {
        self.fallback_allocator = fallback_from_slice(heap);
    }
}

/// Freeing a block of a class and then allocating with the same size and
/// alignment hands back that very block (the class lists are LIFO), and
/// leaves the free lists as they were before the block was freed.
pub proof fn lemma_freed_block_is_reused_first(
    lists: Seq<Seq<usize>>,
    addr: usize,
    size: usize,
    align: usize,
)
    requires
        lists.len() == CLASS_COUNT,
        class_of(size, align) is Some,
    ensures
        reused_block(lists_after_dealloc(lists, addr, size, align), size, align) == Some(addr),
        lists_after_alloc(lists_after_dealloc(lists, addr, size, align), size, align) == lists,
{
    lemma_class_is_smallest_fit(size, align);
    let i = class_of(size, align)->0 as int;
    let pushed = lists.update(i, lists[i].push(addr));
    assert(pushed[i].drop_last() =~= lists[i]);
    assert(pushed.update(i, pushed[i].drop_last()) =~= lists);
}

} // verus!
