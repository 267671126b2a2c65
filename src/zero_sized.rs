use crate::core_traits::{
    moved_post, Resize,
    AllocErr, Handle, MemoryBlock, NonEmptyMemoryBlock, ResizableStorage, Storage,
};
use crate::layout::{Layout, NonEmptyLayout};
use core::marker::PhantomData;
use vstd::prelude::*;

verus! {

/// The largest alignment a zero-sized storage serves.
pub const MAX_ALIGN: usize = 0x2000_0000;

/// A storage that serves only empty layouts, all with one dangling handle.
pub struct ZeroSizedStorage<H> {
    marker: PhantomData<H>,
}

impl<H> ZeroSizedStorage<H> {
    /// The zero-sized storage.
    pub fn new() -> (r: Self) {
        ZeroSizedStorage { marker: PhantomData }
    }
}

impl<H: Handle> Storage for ZeroSizedStorage<H> {
    type Handle = H;

    open spec fn wf(&self) -> bool {
        true
    }

    open spec fn mem(&self) -> Seq<u8> {
        Seq::empty()
    }

    open spec fn addr(&self, handle: H) -> int {
        0
    }

    open spec fn in_bounds(&self, handle: H, index: int) -> bool {
        false
    }

    /// A non-empty layout always fails.
    open spec fn same_state(&self, other: Self) -> bool {
        other == *self
    }

    proof fn lemma_same_state_refl(&self) {
    }

    proof fn lemma_same_state_trans(&self, b: Self, c: Self) {
    }

    open spec fn allocate_post(
        &self,
        layout: NonEmptyLayout,
        post: Self,
        r: Result<NonEmptyMemoryBlock<H>, AllocErr>,
    ) -> bool {
        post == *self && r == Err::<NonEmptyMemoryBlock<H>, AllocErr>(AllocErr(layout.spec_layout(), ()))
    }

    open spec fn deallocate_post(&self, handle: H, layout: NonEmptyLayout, post: Self) -> bool {
        post == *self
    }

    /// An empty layout aligned to at most `MAX_ALIGN` gets the dangling
    /// handle for `MAX_ALIGN`; anything else fails.
    open spec fn allocate_any_post(
        &self,
        layout: Layout,
        post: Self,
        r: Result<MemoryBlock<H>, AllocErr>,
    ) -> bool {
        &&& post == *self
        &&& r == if layout.spec_size() == 0 && layout.spec_align() <= MAX_ALIGN {
            Ok::<MemoryBlock<H>, AllocErr>(MemoryBlock { handle: H::spec_dangling(MAX_ALIGN), size: 0 })
        } else {
            Err::<MemoryBlock<H>, AllocErr>(AllocErr(layout, ()))
        }
    }

    open spec fn deallocate_any_post(&self, handle: H, layout: Layout, post: Self) -> bool {
        post == *self
    }

    proof fn lemma_allocate_keeps(&self, layout: NonEmptyLayout, post: Self, r: Result<NonEmptyMemoryBlock<H>, AllocErr>) {
    }

    proof fn lemma_in_bounds(&self, handle: H, index: int) {
    }

    fn get(&self, handle: H, index: usize) -> (r: Option<u8>) {
        None
    }

    fn get_mut(&mut self, handle: H, index: usize, value: u8) -> (r: bool) {
        false
    }

    fn allocate_nonempty(&mut self, layout: NonEmptyLayout) -> (r: Result<NonEmptyMemoryBlock<H>, AllocErr>) {
        Err(AllocErr::new(layout.to_layout()))
    }

    fn deallocate_nonempty(&mut self, handle: H, layout: NonEmptyLayout) {
    }

    fn allocate(&mut self, layout: Layout) -> (r: Result<MemoryBlock<H>, AllocErr>) {
        if layout.size() == 0 && layout.align() <= MAX_ALIGN {
            proof {
                reveal_with_fuel(crate::layout::is_pow2, 31);
                assert(crate::layout::is_pow2(MAX_ALIGN as int));
            }
            Ok(MemoryBlock { handle: H::dangling(MAX_ALIGN), size: 0 })
        } else {
            Err(AllocErr::new(layout))
        }
    }

    fn deallocate(&mut self, handle: H, layout: Layout) {
    }
}

impl<H: Handle> ResizableStorage for ZeroSizedStorage<H> {
    open spec fn resize_post(
        &self,
        handle: H,
        old_layout: Layout,
        new_layout: Layout,
        kind: Resize,
        post: Self,
        r: Result<MemoryBlock<H>, AllocErr>,
    ) -> bool {
        if old_layout == new_layout {
            r == Ok::<MemoryBlock<H>, AllocErr>(MemoryBlock { handle, size: old_layout.spec_size() }) && post == *self
        } else {
            self.allocate_any_post(new_layout, post, r)
        }
    }

    fn grow(&mut self, handle: H, old_layout: Layout, new_layout: Layout) -> (r: Result<MemoryBlock<H>, AllocErr>) {
        if old_layout == new_layout {
            return Ok(MemoryBlock { handle, size: old_layout.size() });
        }
        self.allocate(new_layout)
    }

    fn grow_zeroed(&mut self, handle: H, old_layout: Layout, new_layout: Layout) -> (r: Result<
        MemoryBlock<H>,
        AllocErr,
    >) {
        if old_layout == new_layout {
            return Ok(MemoryBlock { handle, size: old_layout.size() });
        }
        self.allocate(new_layout)
    }

    fn shrink(&mut self, handle: H, old_layout: Layout, new_layout: Layout) -> (r: Result<MemoryBlock<H>, AllocErr>) {
        if old_layout == new_layout {
            return Ok(MemoryBlock { handle, size: old_layout.size() });
        }
        self.allocate(new_layout)
    }
}

} // verus!
