use crate::core_traits::{
    moved_post, Resize,
    bytes_kept, lemma_bytes_through, lemma_same_addressing_trans, same_addressing, AllocErr, MemoryBlock,
    NonEmptyMemoryBlock, OffsetHandle, ResizableStorage, Storage,
};
use crate::freelist::Flush;
use crate::layout::{Layout, NonEmptyLayout};
use vstd::prelude::*;

verus! {

/// After this many counted operations the next one flushes.
pub const THRESHOLD: u8 = 128;

/// A storage that flushes its inner storage once every `THRESHOLD`
/// operations or so, bounding how much pooled memory piles up.
pub struct CountingFlushStorage<S> {
    pub storage: S,
    count: u8,
}

/// One operation counted: past the threshold the count restarts and the
/// inner storage is flushed, otherwise the count goes up.
pub open spec fn counted<S: Flush>(storage: S, count: u8, post_storage: S, post_count: u8) -> bool {
    if count > THRESHOLD {
        post_count == 0 && storage.flush_post(post_storage)
    } else {
        post_count == count + 1 && post_storage == storage
    }
}

impl<S: Flush> CountingFlushStorage<S> {
    /// Operations counted since the last flush.
    pub closed spec fn spec_count(&self) -> u8 {
        self.count
    }

    /// The storage being counted for.
    pub closed spec fn inner(&self) -> S {
        self.storage
    }

    /// `storage` with nothing counted yet.
    pub fn new(storage: S) -> (r: Self)
        requires
            storage.wf(),
        ensures
            r.wf(),
            r.inner() == storage,
            r.spec_count() == 0,
    {
        CountingFlushStorage { storage, count: 0 }
    }

    /// Counts one operation, flushing when the threshold is passed.
    fn count(&mut self)
        requires
            old(self).wf(),
        ensures
            final(self).wf(),
            counted(old(self).storage, old(self).count, final(self).storage, final(self).count),
            final(self).mem() == old(self).mem(),
            same_addressing(old(self).storage, final(self).storage),
    {
        if self.count > THRESHOLD {
            self.count = 0;
            self.storage.flush();
        } else {
            self.count = self.count + 1;
        }
    }
}

impl<S: Flush> Storage for CountingFlushStorage<S> {
    type Handle = S::Handle;

    closed spec fn wf(&self) -> bool {
        self.storage.wf() && self.count <= THRESHOLD + 1
    }

    closed spec fn mem(&self) -> Seq<u8> {
        self.storage.mem()
    }

    closed spec fn addr(&self, handle: S::Handle) -> int {
        self.storage.addr(handle)
    }

    closed spec fn in_bounds(&self, handle: S::Handle, index: int) -> bool {
        self.storage.in_bounds(handle, index)
    }

    closed spec fn same_state(&self, other: Self) -> bool {
        other.count == self.count && self.storage.same_state(other.storage)
    }

    proof fn lemma_same_state_refl(&self) {
        self.storage.lemma_same_state_refl();
    }

    proof fn lemma_same_state_trans(&self, b: Self, c: Self) {
        self.storage.lemma_same_state_trans(b.storage, c.storage);
    }

    /// Counts, then allocates from the inner storage.
    closed spec fn allocate_post(
        &self,
        layout: NonEmptyLayout,
        post: Self,
        r: Result<NonEmptyMemoryBlock<S::Handle>, AllocErr>,
    ) -> bool {
        exists|mid: S|
            counted(self.storage, self.count, mid, post.count) && mid.allocate_post(layout, post.storage, r)
    }

    /// Deallocates through the inner storage, then counts.
    closed spec fn deallocate_post(&self, handle: S::Handle, layout: NonEmptyLayout, post: Self) -> bool {
        exists|mid: S|
            self.storage.deallocate_post(handle, layout, mid) && counted(mid, self.count, post.storage, post.count)
    }

    closed spec fn allocate_any_post(
        &self,
        layout: Layout,
        post: Self,
        r: Result<MemoryBlock<S::Handle>, AllocErr>,
    ) -> bool {
        exists|mid: S|
            counted(self.storage, self.count, mid, post.count) && mid.allocate_any_post(layout, post.storage, r)
    }

    closed spec fn deallocate_any_post(&self, handle: S::Handle, layout: Layout, post: Self) -> bool {
        exists|mid: S|
            self.storage.deallocate_any_post(handle, layout, mid) && counted(mid, self.count, post.storage, post.count)
    }

    proof fn lemma_allocate_keeps(&self, layout: NonEmptyLayout, post: Self, r: Result<NonEmptyMemoryBlock<S::Handle>, AllocErr>) {
        let mid = choose|mid: S|
            counted(self.storage, self.count, mid, post.count) && mid.allocate_post(layout, post.storage, r);
        if self.count > THRESHOLD {
            self.storage.lemma_flush_keeps(mid);
        }
        mid.lemma_allocate_keeps(layout, post.storage, r);
        lemma_same_addressing_trans(self.storage, mid, post.storage);
    }

    proof fn lemma_in_bounds(&self, handle: S::Handle, index: int) {
        self.storage.lemma_in_bounds(handle, index);
    }

    fn get(&self, handle: S::Handle, index: usize) -> (r: Option<u8>) {
        self.storage.get(handle, index)
    }

    fn get_mut(&mut self, handle: S::Handle, index: usize, value: u8) -> (r: bool) {
        self.storage.get_mut(handle, index, value)
    }

    fn allocate_nonempty(&mut self, layout: NonEmptyLayout) -> (r: Result<
        NonEmptyMemoryBlock<S::Handle>,
        AllocErr,
    >) {
        self.count();
        let ghost mid = self.storage;
        let r = self.storage.allocate_nonempty(layout);
        proof {
            lemma_same_addressing_trans(old(self).storage, mid, self.storage);
            assert(counted(old(self).storage, old(self).count, mid, self.count) && mid.allocate_post(
                layout,
                self.storage,
                r,
            ));
        }
        r
    }

    fn deallocate_nonempty(&mut self, handle: S::Handle, layout: NonEmptyLayout) {
        self.storage.deallocate_nonempty(handle, layout);
        let ghost mid = self.storage;
        self.count();
        proof {
            lemma_same_addressing_trans(old(self).storage, mid, self.storage);
            assert(old(self).storage.deallocate_post(handle, layout, mid) && counted(
                mid,
                old(self).count,
                self.storage,
                self.count,
            ));
        }
    }

    fn allocate(&mut self, layout: Layout) -> (r: Result<MemoryBlock<S::Handle>, AllocErr>) {
        self.count();
        let ghost mid = self.storage;
        let r = self.storage.allocate(layout);
        proof {
            lemma_same_addressing_trans(old(self).storage, mid, self.storage);
            assert(counted(old(self).storage, old(self).count, mid, self.count) && mid.allocate_any_post(
                layout,
                self.storage,
                r,
            ));
        }
        r
    }

    fn deallocate(&mut self, handle: S::Handle, layout: Layout) {
        self.storage.deallocate(handle, layout);
        let ghost mid = self.storage;
        self.count();
        proof {
            lemma_same_addressing_trans(old(self).storage, mid, self.storage);
            assert(old(self).storage.deallocate_any_post(handle, layout, mid) && counted(
                mid,
                old(self).count,
                self.storage,
                self.count,
            ));
        }
    }
}

impl<S: Flush + ResizableStorage> ResizableStorage for CountingFlushStorage<S> {
    closed spec fn resize_post(
        &self,
        handle: S::Handle,
        old_layout: Layout,
        new_layout: Layout,
        kind: Resize,
        post: Self,
        r: Result<MemoryBlock<S::Handle>, AllocErr>,
    ) -> bool {
        if old_layout == new_layout {
            r == Ok::<MemoryBlock<S::Handle>, AllocErr>(MemoryBlock { handle, size: old_layout.spec_size() }) && post == *self
        } else {
            exists|mid: S|
                #[trigger] self.storage.resize_post(handle, old_layout, new_layout, kind, mid, r) && counted(
                    mid,
                    self.count,
                    post.storage,
                    post.count,
                )
        }
    }

    fn grow(&mut self, handle: S::Handle, old_layout: Layout, new_layout: Layout) -> (r: Result<
        MemoryBlock<S::Handle>,
        AllocErr,
    >) {
        if old_layout == new_layout {
            return Ok(MemoryBlock { handle, size: old_layout.size() });
        }
        let r = self.storage.grow(handle, old_layout, new_layout);
        let ghost mid = self.storage;
        self.count();
        proof {
            lemma_same_addressing_trans(old(self).storage, mid, self.storage);
            if r is Ok {
                lemma_bytes_through(
                    old(self).storage,
                    handle,
                    mid,
                    self.storage,
                    r->Ok_0.handle,
                    old_layout.spec_size() as int,
                    old_layout.spec_size() as int,
                    new_layout.spec_size() as int,
                    r->Ok_0.size as int,
                );
            }
        }
        r
    }

    fn grow_zeroed(&mut self, handle: S::Handle, old_layout: Layout, new_layout: Layout) -> (r: Result<
        MemoryBlock<S::Handle>,
        AllocErr,
    >) {
        if old_layout == new_layout {
            return Ok(MemoryBlock { handle, size: old_layout.size() });
        }
        let r = self.storage.grow_zeroed(handle, old_layout, new_layout);
        let ghost mid = self.storage;
        self.count();
        proof {
            lemma_same_addressing_trans(old(self).storage, mid, self.storage);
            if r is Ok {
                lemma_bytes_through(
                    old(self).storage,
                    handle,
                    mid,
                    self.storage,
                    r->Ok_0.handle,
                    old_layout.spec_size() as int,
                    old_layout.spec_size() as int,
                    new_layout.spec_size() as int,
                    r->Ok_0.size as int,
                );
            }
        }
        r
    }

    fn shrink(&mut self, handle: S::Handle, old_layout: Layout, new_layout: Layout) -> (r: Result<
        MemoryBlock<S::Handle>,
        AllocErr,
    >) {
        if old_layout == new_layout {
            return Ok(MemoryBlock { handle, size: old_layout.size() });
        }
        let r = self.storage.shrink(handle, old_layout, new_layout);
        let ghost mid = self.storage;
        self.count();
        proof {
            lemma_same_addressing_trans(old(self).storage, mid, self.storage);
            if r is Ok {
                lemma_bytes_through(
                    old(self).storage,
                    handle,
                    mid,
                    self.storage,
                    r->Ok_0.handle,
                    new_layout.spec_size() as int,
                    old_layout.spec_size() as int,
                    new_layout.spec_size() as int,
                    r->Ok_0.size as int,
                );
            }
        }
        r
    }
}

impl<S: Flush> Flush for CountingFlushStorage<S> {
    /// The count restarts and the inner storage is flushed.
    closed spec fn flush_post(&self, post: Self) -> bool {
        post.count == 0 && self.storage.flush_post(post.storage)
    }

    proof fn lemma_flush_keeps(&self, post: Self) {
        self.storage.lemma_flush_keeps(post.storage);
    }

    fn try_flush(&mut self) -> (r: bool) {
        self.count = 0;
        self.storage.try_flush()
    }

    fn flush(&mut self) {
        self.count = 0;
        self.storage.flush();
    }
}

impl<S: Flush + OffsetHandle> OffsetHandle for CountingFlushStorage<S> {
    closed spec fn spec_offset(&self, handle: S::Handle, offset: isize) -> S::Handle {
        self.storage.spec_offset(handle, offset)
    }

    closed spec fn offset_ok(&self, handle: S::Handle, offset: isize) -> bool {
        self.storage.offset_ok(handle, offset)
    }

    proof fn lemma_offset(&self, handle: S::Handle, offset: isize) {
        self.storage.lemma_offset(handle, offset);
    }

    fn offset(&self, handle: S::Handle, offset: isize) -> (r: S::Handle) {
        self.storage.offset(handle, offset)
    }

    fn checked_offset(&self, handle: S::Handle, offset: isize) -> (r: Option<S::Handle>) {
        self.storage.checked_offset(handle, offset)
    }
}

/// What an allocation through a counting flush storage does: the operation
/// is counted, which past the threshold restarts the count and flushes the
/// inner storage, then the inner storage allocates.
pub proof fn lemma_counting_flush_allocate<S: Flush>(
    s: CountingFlushStorage<S>,
    layout: NonEmptyLayout,
    post: CountingFlushStorage<S>,
    r: Result<NonEmptyMemoryBlock<S::Handle>, AllocErr>,
)
    requires
        s.allocate_post(layout, post, r),
    ensures
        exists|mid: S|
            counted(s.inner(), s.spec_count(), mid, post.spec_count()) && #[trigger] mid.allocate_post(
                layout,
                post.inner(),
                r,
            ),
        s.spec_count() > THRESHOLD ==> post.spec_count() == 0,
        s.spec_count() <= THRESHOLD ==> post.spec_count() == s.spec_count() + 1,
{
    let mid = choose|mid: S|
        counted(s.storage, s.count, mid, post.count) && mid.allocate_post(layout, post.storage, r);
    assert(counted(s.inner(), s.spec_count(), mid, post.spec_count()) && mid.allocate_post(layout, post.inner(), r));
}

} // verus!
