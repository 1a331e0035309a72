//! The fixed block size classes and the classification of a request.

use vstd::prelude::*;

verus! {

/// Number of block size classes.
pub const CLASS_COUNT: usize = 9;

/// Size in bytes of the largest class.
pub const LARGEST_BLOCK: usize = 2048;

/// Byte size (and alignment) of the blocks of class `index`.
pub open spec fn class_block_size(index: int) -> int {
    if index == 0 {
        8
    } else if index == 1 {
        16
    } else if index == 2 {
        32
    } else if index == 3 {
        64
    } else if index == 4 {
        128
    } else if index == 5 {
        256
    } else if index == 6 {
        512
    } else if index == 7 {
        1024
    } else {
        2048
    }
}

/// The block size that a request needs: the larger of its size and alignment.
pub open spec fn required_block_size(size: usize, align: usize) -> int {
    if size >= align {
        size as int
    } else {
        align as int
    }
}

/// The smallest class whose blocks hold `required` bytes, if any.
pub open spec fn class_for(required: int) -> Option<usize> {
    if required <= 8 {
        Some(0)
    } else if required <= 16 {
        Some(1)
    } else if required <= 32 {
        Some(2)
    } else if required <= 64 {
        Some(3)
    } else if required <= 128 {
        Some(4)
    } else if required <= 256 {
        Some(5)
    } else if required <= 512 {
        Some(6)
    } else if required <= 1024 {
        Some(7)
    } else if required <= 2048 {
        Some(8)
    } else {
        None
    }
}

/// The class of a request of `size` bytes aligned to `align`.
pub open spec fn class_of(size: usize, align: usize) -> Option<usize> {
    class_for(required_block_size(size, align))
}

/// Whether `n` is a power of two.
pub open spec fn is_power_of_two(n: int) -> bool
    decreases n,
{
    if n <= 0 {
        false
    } else if n == 1 {
        true
    } else {
        n % 2 == 0 && is_power_of_two(n / 2)
    }
}

/// Byte size of the blocks of class `index`.
pub fn block_size(index: usize) -> (r: usize)
    requires
        index < CLASS_COUNT,
    ensures
        r == class_block_size(index as int),
{
    match index {
        0 => 8,
        1 => 16,
        2 => 32,
        3 => 64,
        4 => 128,
        5 => 256,
        6 => 512,
        7 => 1024,
        _ => 2048,
    }
}

/// Index of the smallest class whose block size is at least
/// `max(size, align)`; `None` when the request exceeds the largest class.
pub fn list_index(size: usize, align: usize) -> (r: Option<usize>)
    ensures
        r == class_of(size, align),
        r is Some ==> r->0 < CLASS_COUNT,
{
    let required: usize = if size >= align {
        size
    } else {
        align
    };
    let mut i: usize = 0;
    while i < CLASS_COUNT
        invariant
            0 <= i <= CLASS_COUNT,
            required as int == required_block_size(size, align),
            forall|j: int| 0 <= j < i ==> class_block_size(j) < required,
        decreases CLASS_COUNT - i,
    {
        if block_size(i) >= required {
            assert(i == 0 || class_block_size(i - 1) < required);
            return Some(i);
        }
        i = i + 1;
    }
    assert(class_block_size(8) < required);
    None
}

/// Classification picks the smallest class that holds the request: the
/// class found is large enough, every smaller class is too small, and no
/// class is found exactly when the request exceeds the largest block.
pub proof fn lemma_class_is_smallest_fit(size: usize, align: usize)
    ensures
        class_of(size, align) is None <==> required_block_size(size, align) > LARGEST_BLOCK,
        class_of(size, align) is Some ==> {
            let i = class_of(size, align)->0;
            &&& i < CLASS_COUNT
            &&& class_block_size(i as int) >= required_block_size(size, align)
            &&& forall|j: int|
                0 <= j < i ==> class_block_size(j) < required_block_size(size, align)
        },
{
}

/// Classification depends on the request alone: any two results that
/// `list_index` gives for the same size and alignment are the same class.
pub proof fn lemma_classification_is_stable(
    size: usize,
    align: usize,
    first: Option<usize>,
    second: Option<usize>,
)
    requires
        first == class_of(size, align),
        second == class_of(size, align),
    ensures
        first == second,
{
}

/// Every class block size is a power of two, so it serves as the
/// alignment of its blocks as well.
pub proof fn lemma_class_sizes_are_powers_of_two(index: int)
    requires
        0 <= index < CLASS_COUNT,
    ensures
        is_power_of_two(class_block_size(index)),
{
    reveal_with_fuel(is_power_of_two, 13);
}

} // verus!
