//! Composable storage backends: bump allocators, a pooled free list, single-slot
//! storages, and combinators (affix, pad, picker, counting wrappers) that stack
//! on top of each other. Every backend addresses its allocations by handles and
//! exposes its bytes through `get` / `get_mut`.

mod affix;
mod backoff;
mod boxed;
mod bump;
mod core_traits;
mod counting_flush;
mod flush_barrier;
mod freelist;
mod layout;
mod multi;
mod no_op;
mod null;
mod pad;
mod picker;
mod rc;
mod single;
mod vec;
mod zero_sized;

pub use affix::{
    affix_any, affix_block, affix_resize_post, affixes_moved, resize_refused, start_reachable, surround_spec, whole_readable, AffixHandle, AffixStorage,
    ConstLayoutProvider, LayoutProvider, TypedLayoutProvider,
};
pub use backoff::{Backoff, SPIN_LIMIT, YIELD_LIMIT};
pub use boxed::Box;
pub use bump::{
    lemma_bump_allocate, lemma_bump_over_single, lemma_bump_zero_size, lemma_counting_bump_allocate, lemma_counting_bump_rewinds, lemma_counting_bump_zero_size, next_pow2,
    next_pow2_from, next_power_of_two, BumpHandle, BumpStorage, CountingBumpStorage,
};
pub use core_traits::{
    allocate_zeroed, block_of, block_readable, block_result, bytes_kept, bytes_zero,
    dangling_block, empty_block, in_run, into_block_result, lemma_bytes_through, lemma_handle_stability, lemma_outside_run, reachable,
    lemma_same_addressing_trans, map_mbr, map_nembr, move_block, moved_post, Resize, move_bytes, moved_at, run_byte,
    read_run, same_addressing, write_bytes, write_run, zero_range, AllocErr, Handle, MemoryBlock, NonEmptyMemoryBlock,
    OffsetHandle, ResizableStorage, Storage,
};
pub use counting_flush::{counted, lemma_counting_flush_allocate, CountingFlushStorage, THRESHOLD};
pub use flush_barrier::FlushBarrier;
pub use freelist::{
    bitmap_len, deallocated_in_order, deallocation_chain, free_list_layout, pooled, record_layout,
    table_layout,
    bucket_clear, bucket_fit, bucket_fit_from, bucket_free, bucket_free_from, bucket_set,
    entry_fits, first_empty, first_empty_from, first_fit, first_fit_from, is_full,
    lemma_free_list_allocate_fallback, lemma_free_list_deallocate_overflow, lemma_free_list_reuse,
    lemma_free_list_zero_size, Flush, FreeEntry, FreeListItem, FreeListStorage, MASK_STATUS,
    SINGLE_LOCK,
};
pub use layout::{
    bump_down, bump_down_spec, extend_spec, is_pow2, lemma_shift_back, padding_for, repeat_spec,
    round_down, round_up, shift, shifted, valid_layout, Layout, NonEmptyLayout,
};
pub use multi::{lemma_multi_allocate, lemma_multi_zero_size, MultiHandle, MultiStackStorage};
pub use no_op::NoOpStorage;
pub use null::NullStorage;
pub use pad::{pad_layout, pad_ne_spec, pad_spec, Pad};
pub use picker::{
    left_any, left_block, right_any, right_block, AndC, Choose, MaxAlign, MaxSize, MinAlign,
    MinSize, NotC, OrC, Picker, PickerHandle,
};
pub use rc::{
    drop_strong_spec, drop_weak_spec, lemma_strong_drop_order, strong_drops, Count, Counter,
    Counters, DynamicCounter, DynamicKind, Kind, One, Release, StrongKind, WeakKind,
};
pub use single::{lemma_single_allocate, lemma_single_allocate_any, slot_fits, OffsetSingleStackStorage, SingleHandle, SingleStackStorage};
pub use vec::Vec;
pub use zero_sized::{ZeroSizedStorage, MAX_ALIGN};
