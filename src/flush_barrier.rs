use crate::core_traits::{
    moved_post, Resize,
    AllocErr, MemoryBlock, NonEmptyMemoryBlock, OffsetHandle, ResizableStorage, Storage,
};
use crate::freelist::Flush;
use crate::layout::{Layout, NonEmptyLayout};
use vstd::prelude::*;

verus! {

/// A storage that stops flushes from reaching the one inside it.
pub struct FlushBarrier<S> {
    pub storage: S,
}

impl<S> FlushBarrier<S> {
    /// `storage` behind the barrier.
    pub fn new(storage: S) -> (r: Self)
        ensures
            r.storage == storage,
    {
        FlushBarrier { storage }
    }
}

impl<S: Storage> Flush for FlushBarrier<S> {
    /// Nothing changes.
    open spec fn flush_post(&self, post: Self) -> bool {
        post == *self
    }

    proof fn lemma_flush_keeps(&self, post: Self) {
    }

    fn try_flush(&mut self) -> (r: bool)
        ensures
            r,
            *final(self) == *old(self),
    {
        true
    }

    fn flush(&mut self) {
    }
}

impl<S: Storage> Storage for FlushBarrier<S> {
    type Handle = S::Handle;

    open spec fn wf(&self) -> bool {
        self.storage.wf()
    }

    open spec fn mem(&self) -> Seq<u8> {
        self.storage.mem()
    }

    open spec fn addr(&self, handle: S::Handle) -> int {
        self.storage.addr(handle)
    }

    open spec fn in_bounds(&self, handle: S::Handle, index: int) -> bool {
        self.storage.in_bounds(handle, index)
    }

    open spec fn same_state(&self, other: Self) -> bool {
        self.storage.same_state(other.storage)
    }

    proof fn lemma_same_state_refl(&self) {
        self.storage.lemma_same_state_refl();
    }

    proof fn lemma_same_state_trans(&self, b: Self, c: Self) {
        self.storage.lemma_same_state_trans(b.storage, c.storage);
    }

    open spec fn allocate_post(
        &self,
        layout: NonEmptyLayout,
        post: Self,
        r: Result<NonEmptyMemoryBlock<S::Handle>, AllocErr>,
    ) -> bool {
        self.storage.allocate_post(layout, post.storage, r)
    }

    open spec fn deallocate_post(&self, handle: S::Handle, layout: NonEmptyLayout, post: Self) -> bool {
        self.storage.deallocate_post(handle, layout, post.storage)
    }

    open spec fn allocate_any_post(
        &self,
        layout: Layout,
        post: Self,
        r: Result<MemoryBlock<S::Handle>, AllocErr>,
    ) -> bool {
        self.storage.allocate_any_post(layout, post.storage, r)
    }

    open spec fn deallocate_any_post(&self, handle: S::Handle, layout: Layout, post: Self) -> bool {
        self.storage.deallocate_any_post(handle, layout, post.storage)
    }

    proof fn lemma_allocate_keeps(&self, layout: NonEmptyLayout, post: Self, r: Result<NonEmptyMemoryBlock<S::Handle>, AllocErr>) {
        self.storage.lemma_allocate_keeps(layout, post.storage, r);
    }

    proof fn lemma_in_bounds(&self, handle: S::Handle, index: int) {
        self.storage.lemma_in_bounds(handle, index);
    }

    fn get(&self, handle: S::Handle, index: usize) -> (r: Option<u8>) {
        self.storage.get(handle, index)
    }

    fn get_mut(&mut self, handle: S::Handle, index: usize, value: u8) -> (r: bool) {
        self.storage.get_mut(handle, index, value)
    }

    fn allocate_nonempty(&mut self, layout: NonEmptyLayout) -> (r: Result<
        NonEmptyMemoryBlock<S::Handle>,
        AllocErr,
    >) {
        self.storage.allocate_nonempty(layout)
    }

    fn deallocate_nonempty(&mut self, handle: S::Handle, layout: NonEmptyLayout) {
        self.storage.deallocate_nonempty(handle, layout)
    }

    fn allocate(&mut self, layout: Layout) -> (r: Result<MemoryBlock<S::Handle>, AllocErr>) {
        self.storage.allocate(layout)
    }

    fn deallocate(&mut self, handle: S::Handle, layout: Layout) {
        self.storage.deallocate(handle, layout)
    }
}

impl<S: ResizableStorage> ResizableStorage for FlushBarrier<S> {
    open spec fn resize_post(
        &self,
        handle: S::Handle,
        old_layout: Layout,
        new_layout: Layout,
        kind: Resize,
        post: Self,
        r: Result<MemoryBlock<S::Handle>, AllocErr>,
    ) -> bool {
        self.storage.resize_post(handle, old_layout, new_layout, kind, post.storage, r)
    }

    fn grow(&mut self, handle: S::Handle, old_layout: Layout, new_layout: Layout) -> (r: Result<
        MemoryBlock<S::Handle>,
        AllocErr,
    >) {
        self.storage.grow(handle, old_layout, new_layout)
    }

    fn grow_zeroed(&mut self, handle: S::Handle, old_layout: Layout, new_layout: Layout) -> (r: Result<
        MemoryBlock<S::Handle>,
        AllocErr,
    >) {
        self.storage.grow_zeroed(handle, old_layout, new_layout)
    }

    fn shrink(&mut self, handle: S::Handle, old_layout: Layout, new_layout: Layout) -> (r: Result<
        MemoryBlock<S::Handle>,
        AllocErr,
    >) {
        self.storage.shrink(handle, old_layout, new_layout)
    }
}

impl<S: OffsetHandle> OffsetHandle for FlushBarrier<S> {
    open spec fn spec_offset(&self, handle: S::Handle, offset: isize) -> S::Handle {
        self.storage.spec_offset(handle, offset)
    }

    open spec fn offset_ok(&self, handle: S::Handle, offset: isize) -> bool {
        self.storage.offset_ok(handle, offset)
    }

    proof fn lemma_offset(&self, handle: S::Handle, offset: isize) {
        self.storage.lemma_offset(handle, offset);
    }

    fn offset(&self, handle: S::Handle, offset: isize) -> (r: S::Handle) {
        self.storage.offset(handle, offset)
    }

    fn checked_offset(&self, handle: S::Handle, offset: isize) -> (r: Option<S::Handle>) {
        self.storage.checked_offset(handle, offset)
    }
}

} // verus!
