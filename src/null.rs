use crate::core_traits::{
    moved_post, Resize,
    AllocErr, Handle, MemoryBlock, NonEmptyMemoryBlock, ResizableStorage, Storage,
};
use crate::freelist::Flush;
use crate::layout::{Layout, NonEmptyLayout};
use core::marker::PhantomData;
use vstd::prelude::*;

verus! {

/// A storage with no memory at all: every allocation fails.
pub struct NullStorage<H> {
    marker: PhantomData<H>,
}

impl NullStorage<usize> {
    /// A null storage with address handles.
    pub fn new() -> (r: NullStorage<usize>)
        ensures
            r.wf(),
    {
        NullStorage::with_handle()
    }
}

impl<H> NullStorage<H> {
    /// A null storage with handles of type `H`.
    pub fn with_handle() -> (r: Self) {
        NullStorage { marker: PhantomData }
    }
}

impl<H: Handle> Storage for NullStorage<H> {
    type Handle = H;

    open spec fn wf(&self) -> bool {
        true
    }

    open spec fn mem(&self) -> Seq<u8> {
        Seq::empty()
    }

    open spec fn addr(&self, handle: H) -> int {
        0
    }

    open spec fn in_bounds(&self, handle: H, index: int) -> bool {
        false
    }

    /// Fails and changes nothing.
    open spec fn same_state(&self, other: Self) -> bool {
        other == *self
    }

    proof fn lemma_same_state_refl(&self) {
    }

    proof fn lemma_same_state_trans(&self, b: Self, c: Self) {
    }

    open spec fn allocate_post(
        &self,
        layout: NonEmptyLayout,
        post: Self,
        r: Result<NonEmptyMemoryBlock<H>, AllocErr>,
    ) -> bool {
        post == *self && r == Err::<NonEmptyMemoryBlock<H>, AllocErr>(AllocErr(layout.spec_layout(), ()))
    }

    open spec fn deallocate_post(&self, handle: H, layout: NonEmptyLayout, post: Self) -> bool {
        post == *self
    }

    /// Fails and changes nothing, even for an empty layout.
    open spec fn allocate_any_post(
        &self,
        layout: Layout,
        post: Self,
        r: Result<MemoryBlock<H>, AllocErr>,
    ) -> bool {
        post == *self && r == Err::<MemoryBlock<H>, AllocErr>(AllocErr(layout, ()))
    }

    open spec fn deallocate_any_post(&self, handle: H, layout: Layout, post: Self) -> bool {
        post == *self
    }

    proof fn lemma_allocate_keeps(&self, layout: NonEmptyLayout, post: Self, r: Result<NonEmptyMemoryBlock<H>, AllocErr>) {
    }

    proof fn lemma_in_bounds(&self, handle: H, index: int) {
    }

    fn get(&self, handle: H, index: usize) -> (r: Option<u8>) {
        None
    }

    fn get_mut(&mut self, handle: H, index: usize, value: u8) -> (r: bool) {
        false
    }

    fn allocate_nonempty(&mut self, layout: NonEmptyLayout) -> (r: Result<NonEmptyMemoryBlock<H>, AllocErr>) {
        Err(AllocErr::new(layout.to_layout()))
    }

    fn deallocate_nonempty(&mut self, handle: H, layout: NonEmptyLayout) {
    }

    fn allocate(&mut self, layout: Layout) -> (r: Result<MemoryBlock<H>, AllocErr>) {
        Err(AllocErr::new(layout))
    }

    fn deallocate(&mut self, handle: H, layout: Layout) {
    }
}

impl<H: Handle> ResizableStorage for NullStorage<H> {
    open spec fn resize_post(
        &self,
        handle: H,
        old_layout: Layout,
        new_layout: Layout,
        kind: Resize,
        post: Self,
        r: Result<MemoryBlock<H>, AllocErr>,
    ) -> bool {
        if old_layout == new_layout {
            r == Ok::<MemoryBlock<H>, AllocErr>(MemoryBlock { handle, size: old_layout.spec_size() }) && post == *self
        } else {
            r == Err::<MemoryBlock<H>, AllocErr>(AllocErr(new_layout, ())) && post == *self
        }
    }

    fn grow(&mut self, handle: H, old_layout: Layout, new_layout: Layout) -> (r: Result<MemoryBlock<H>, AllocErr>) {
        if old_layout == new_layout {
            return Ok(MemoryBlock { handle, size: old_layout.size() });
        }
        Err(AllocErr::new(new_layout))
    }

    fn grow_zeroed(&mut self, handle: H, old_layout: Layout, new_layout: Layout) -> (r: Result<
        MemoryBlock<H>,
        AllocErr,
    >) {
        if old_layout == new_layout {
            return Ok(MemoryBlock { handle, size: old_layout.size() });
        }
        Err(AllocErr::new(new_layout))
    }

    fn shrink(&mut self, handle: H, old_layout: Layout, new_layout: Layout) -> (r: Result<MemoryBlock<H>, AllocErr>) {
        if old_layout == new_layout {
            return Ok(MemoryBlock { handle, size: old_layout.size() });
        }
        Err(AllocErr::new(new_layout))
    }
}

impl<H: Handle> Flush for NullStorage<H> {
    open spec fn flush_post(&self, post: Self) -> bool {
        post == *self
    }

    proof fn lemma_flush_keeps(&self, post: Self) {
    }

    fn try_flush(&mut self) -> (r: bool) {
        true
    }

    fn flush(&mut self) {
    }
}

} // verus!
