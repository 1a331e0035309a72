//! Memory-management core of a freestanding kernel: the physical frame
//! source, the heap page-mapping plan, and the fixed-size-block heap
//! allocator with its fallback allocator.

pub mod console;
pub mod fixed_size_block;
pub mod frame;
pub mod heap;
pub mod locked;
pub mod size_class;

