use crate::core_traits::{
    moved_post, Resize,
    AllocErr, MemoryBlock, NonEmptyMemoryBlock, ResizableStorage, Storage,
};
use crate::freelist::Flush;
use crate::layout::{Layout, NonEmptyLayout};
use vstd::prelude::*;

verus! {

/// A storage that never allocates and ignores every deallocation; it is what
/// stands in before a real storage is installed.
pub struct NoOpStorage;

impl Storage for NoOpStorage {
    type Handle = usize;

    open spec fn wf(&self) -> bool {
        true
    }

    open spec fn mem(&self) -> Seq<u8> {
        Seq::empty()
    }

    open spec fn addr(&self, handle: usize) -> int {
        0
    }

    open spec fn in_bounds(&self, handle: usize, index: int) -> bool {
        false
    }

    /// Fails.
    open spec fn same_state(&self, other: Self) -> bool {
        other == *self
    }

    proof fn lemma_same_state_refl(&self) {
    }

    proof fn lemma_same_state_trans(&self, b: Self, c: Self) {
    }

    open spec fn allocate_post(
        &self,
        layout: NonEmptyLayout,
        post: Self,
        r: Result<NonEmptyMemoryBlock<usize>, AllocErr>,
    ) -> bool {
        r == Err::<NonEmptyMemoryBlock<usize>, AllocErr>(AllocErr(layout.spec_layout(), ()))
    }

    open spec fn deallocate_post(&self, handle: usize, layout: NonEmptyLayout, post: Self) -> bool {
        true
    }

    /// Fails, even for an empty layout.
    open spec fn allocate_any_post(
        &self,
        layout: Layout,
        post: Self,
        r: Result<MemoryBlock<usize>, AllocErr>,
    ) -> bool {
        r == Err::<MemoryBlock<usize>, AllocErr>(AllocErr(layout, ()))
    }

    open spec fn deallocate_any_post(&self, handle: usize, layout: Layout, post: Self) -> bool {
        true
    }

    proof fn lemma_allocate_keeps(&self, layout: NonEmptyLayout, post: Self, r: Result<NonEmptyMemoryBlock<usize>, AllocErr>) {
    }

    proof fn lemma_in_bounds(&self, handle: usize, index: int) {
    }

    fn get(&self, handle: usize, index: usize) -> (r: Option<u8>) {
        None
    }

    fn get_mut(&mut self, handle: usize, index: usize, value: u8) -> (r: bool) {
        false
    }

    fn allocate_nonempty(&mut self, layout: NonEmptyLayout) -> (r: Result<NonEmptyMemoryBlock<usize>, AllocErr>) {
        Err(AllocErr::new(layout.to_layout()))
    }

    fn deallocate_nonempty(&mut self, handle: usize, layout: NonEmptyLayout) {
    }

    fn allocate(&mut self, layout: Layout) -> (r: Result<MemoryBlock<usize>, AllocErr>) {
        Err(AllocErr::new(layout))
    }

    fn deallocate(&mut self, handle: usize, layout: Layout) {
    }
}

impl ResizableStorage for NoOpStorage {
    open spec fn resize_post(
        &self,
        handle: usize,
        old_layout: Layout,
        new_layout: Layout,
        kind: Resize,
        post: Self,
        r: Result<MemoryBlock<usize>, AllocErr>,
    ) -> bool {
        if old_layout == new_layout {
            r == Ok::<MemoryBlock<usize>, AllocErr>(MemoryBlock { handle, size: old_layout.spec_size() }) && post == *self
        } else {
            r == Err::<MemoryBlock<usize>, AllocErr>(AllocErr(new_layout, ())) && post == *self
        }
    }

    fn grow(&mut self, handle: usize, old_layout: Layout, new_layout: Layout) -> (r: Result<
        MemoryBlock<usize>,
        AllocErr,
    >) {
        if old_layout == new_layout {
            return Ok(MemoryBlock { handle, size: old_layout.size() });
        }
        Err(AllocErr::new(new_layout))
    }

    fn grow_zeroed(&mut self, handle: usize, old_layout: Layout, new_layout: Layout) -> (r: Result<
        MemoryBlock<usize>,
        AllocErr,
    >) {
        if old_layout == new_layout {
            return Ok(MemoryBlock { handle, size: old_layout.size() });
        }
        Err(AllocErr::new(new_layout))
    }

    fn shrink(&mut self, handle: usize, old_layout: Layout, new_layout: Layout) -> (r: Result<
        MemoryBlock<usize>,
        AllocErr,
    >) {
        if old_layout == new_layout {
            return Ok(MemoryBlock { handle, size: old_layout.size() });
        }
        Err(AllocErr::new(new_layout))
    }
}

impl Flush for NoOpStorage {
    open spec fn flush_post(&self, post: Self) -> bool {
        true
    }

    proof fn lemma_flush_keeps(&self, post: Self) {
    }

    fn try_flush(&mut self) -> (r: bool) {
        true
    }

    fn flush(&mut self) {
    }
}

} // verus!
