use crate::core_traits::{
    moved_post, Resize,
    block_result, dangling_block, empty_block, into_block_result, move_block, AllocErr, Handle, MemoryBlock, NonEmptyMemoryBlock, ResizableStorage, Storage,
};
use crate::layout::{bump_down, bump_down_spec, valid_layout, Layout, NonEmptyLayout};
use vstd::prelude::*;

verus! {

/// A handle into a `MultiStackStorage`: the offset of the block.
#[derive(Clone, Copy, PartialEq, Eq, Structural, Debug)]
pub struct MultiHandle(pub usize);

impl Handle for MultiHandle {
    open spec fn spec_dangling(align: usize) -> MultiHandle {
        MultiHandle(usize::MAX)
    }

    fn dangling(align: usize) -> (r: MultiHandle) {
        MultiHandle(usize::MAX)
    }
}

impl MultiHandle {
    /// Whether this is the sentinel handle.
    pub fn is_dangling(self) -> (r: bool)
        ensures
            r == (self.0 == usize::MAX),
    {
        self.0 == usize::MAX
    }
}

/// `SIZE` bytes handed out from the top down, many blocks at a time; blocks
/// are never reclaimed one by one.
pub struct MultiStackStorage<const SIZE: usize, const ALIGN: usize> {
    memory: Vec<u8>,
    offset: usize,
}

impl<const SIZE: usize, const ALIGN: usize> MultiStackStorage<SIZE, ALIGN> {
    /// The bytes not yet handed out: everything below this offset.
    pub closed spec fn spec_offset(&self) -> usize {
        self.offset
    }

    /// An empty storage of zeroed bytes.
    pub fn new() -> (r: Self)
        ensures
            r.wf(),
            r.spec_offset() == SIZE,
            r.mem() == Seq::new(SIZE as nat, |i: int| 0u8),
    {
        let memory = vec![0u8; SIZE];
        proof {
            assert(memory@ =~= Seq::new(SIZE as nat, |i: int| 0u8));
        }
        MultiStackStorage { memory, offset: SIZE }
    }
}

impl<const SIZE: usize, const ALIGN: usize> Storage for MultiStackStorage<SIZE, ALIGN> {
    type Handle = MultiHandle;

    closed spec fn wf(&self) -> bool {
        &&& self.memory@.len() == SIZE
        &&& self.offset <= SIZE
    }

    closed spec fn mem(&self) -> Seq<u8> {
        self.memory@
    }

    closed spec fn addr(&self, handle: MultiHandle) -> int {
        handle.0 as int
    }

    closed spec fn in_bounds(&self, handle: MultiHandle, index: int) -> bool {
        0 <= handle.0 + index < SIZE
    }

    closed spec fn same_state(&self, other: Self) -> bool {
        other.offset == self.offset
    }

    proof fn lemma_same_state_refl(&self) {
    }

    proof fn lemma_same_state_trans(&self, b: Self, c: Self) {
    }

    /// The block is carved from just below the current offset, rounded down
    /// to the alignment; it fails when the alignment exceeds `ALIGN` or the
    /// space runs out.
    closed spec fn allocate_post(
        &self,
        layout: NonEmptyLayout,
        post: Self,
        r: Result<NonEmptyMemoryBlock<MultiHandle>, AllocErr>,
    ) -> bool {
        match bump_down_spec(self.offset, layout, ALIGN) {
            Some(begin) => {
                &&& post == MultiStackStorage::<SIZE, ALIGN> { memory: self.memory, offset: begin }
                &&& r == Ok::<NonEmptyMemoryBlock<MultiHandle>, AllocErr>(
                    NonEmptyMemoryBlock { handle: MultiHandle(begin), size: (self.offset - begin) as usize },
                )
            },
            None => {
                &&& post == *self
                &&& r == Err::<NonEmptyMemoryBlock<MultiHandle>, AllocErr>(AllocErr(layout.spec_layout(), ()))
            },
        }
    }

    closed spec fn deallocate_post(&self, handle: MultiHandle, layout: NonEmptyLayout, post: Self) -> bool {
        post == *self
    }

    closed spec fn allocate_any_post(
        &self,
        layout: Layout,
        post: Self,
        r: Result<MemoryBlock<MultiHandle>, AllocErr>,
    ) -> bool {
        if layout.spec_size() == 0 {
            post == *self && r == dangling_block::<MultiHandle>(layout)
        } else {
            exists|rn: Result<NonEmptyMemoryBlock<MultiHandle>, AllocErr>|
                self.allocate_post(NonEmptyLayout::spec_from(layout), post, rn) && r == block_result(rn)
        }
    }

    closed spec fn deallocate_any_post(&self, handle: MultiHandle, layout: Layout, post: Self) -> bool {
        post == *self
    }

    proof fn lemma_allocate_keeps(&self, layout: NonEmptyLayout, post: Self, r: Result<NonEmptyMemoryBlock<MultiHandle>, AllocErr>) {
    }

    proof fn lemma_in_bounds(&self, handle: MultiHandle, index: int) {
    }

    fn get(&self, handle: MultiHandle, index: usize) -> (r: Option<u8>) {
        if index > usize::MAX - handle.0 || handle.0 + index >= self.memory.len() {
            None
        } else {
            Some(self.memory[handle.0 + index])
        }
    }

    fn get_mut(&mut self, handle: MultiHandle, index: usize, value: u8) -> (r: bool) {
        if index > usize::MAX - handle.0 || handle.0 + index >= self.memory.len() {
            false
        } else {
            self.memory.set(handle.0 + index, value);
            true
        }
    }

    fn allocate_nonempty(&mut self, layout: NonEmptyLayout) -> (r: Result<
        NonEmptyMemoryBlock<MultiHandle>,
        AllocErr,
    >) {
        match bump_down(self.offset, layout, ALIGN) {
            Some(begin) => {
                let size = self.offset - begin;
                self.offset = begin;
                Ok(NonEmptyMemoryBlock { handle: MultiHandle(begin), size })
            },
            None => Err(AllocErr::new(layout.to_layout())),
        }
    }

    fn deallocate_nonempty(&mut self, handle: MultiHandle, layout: NonEmptyLayout) {
    }

    fn allocate(&mut self, layout: Layout) -> (r: Result<MemoryBlock<MultiHandle>, AllocErr>) {
        match NonEmptyLayout::new(layout) {
            Some(ne) => {
                let r = self.allocate_nonempty(ne);
                proof {
                    assert(old(self).allocate_post(NonEmptyLayout::spec_from(layout), *self, r));
                }
                into_block_result(r)
            },
            None => empty_block(layout),
        }
    }

    fn deallocate(&mut self, handle: MultiHandle, layout: Layout) {
    }
}

impl<const SIZE: usize, const ALIGN: usize> ResizableStorage for MultiStackStorage<SIZE, ALIGN> {
    closed spec fn resize_post(
        &self,
        handle: MultiHandle,
        old_layout: Layout,
        new_layout: Layout,
        kind: Resize,
        post: Self,
        r: Result<MemoryBlock<MultiHandle>, AllocErr>,
    ) -> bool {
        if old_layout == new_layout {
            r == Ok::<MemoryBlock<MultiHandle>, AllocErr>(MemoryBlock { handle, size: old_layout.spec_size() }) && post == *self
        } else {
            moved_post(*self, handle, old_layout, new_layout, post, r)
        }
    }

    fn grow(&mut self, handle: MultiHandle, old_layout: Layout, new_layout: Layout) -> (r: Result<
        MemoryBlock<MultiHandle>,
        AllocErr,
    >)
        ensures
            old_layout != new_layout ==> (r is Ok <==> (new_layout.spec_size() == 0 || bump_down_spec(
                old(self).spec_offset(),
                NonEmptyLayout::spec_from(new_layout),
                ALIGN,
            ) is Some)),
            old_layout != new_layout && r is Err ==> old(self).allocate_any_post(new_layout, *final(self), r),
            old_layout != new_layout && r is Ok ==> exists|mid: Self, copied: Self|
                #![trigger old(self).allocate_any_post(new_layout, mid, r), mid.same_state(copied)]
                old(self).allocate_any_post(new_layout, mid, r) && mid.same_state(copied)
                    && copied.deallocate_any_post(handle, old_layout, *final(self)),
    {
        if old_layout == new_layout {
            Ok(MemoryBlock { handle, size: old_layout.size() })
        } else {
            move_block(self, handle, old_layout, new_layout, old_layout.size(), false)
        }
    }

    fn grow_zeroed(&mut self, handle: MultiHandle, old_layout: Layout, new_layout: Layout) -> (r: Result<
        MemoryBlock<MultiHandle>,
        AllocErr,
    >)
        ensures
            old_layout != new_layout ==> (r is Ok <==> (new_layout.spec_size() == 0 || bump_down_spec(
                old(self).spec_offset(),
                NonEmptyLayout::spec_from(new_layout),
                ALIGN,
            ) is Some)),
            old_layout != new_layout && r is Err ==> old(self).allocate_any_post(new_layout, *final(self), r),
            old_layout != new_layout && r is Ok ==> exists|mid: Self, copied: Self|
                #![trigger old(self).allocate_any_post(new_layout, mid, r), mid.same_state(copied)]
                old(self).allocate_any_post(new_layout, mid, r) && mid.same_state(copied)
                    && copied.deallocate_any_post(handle, old_layout, *final(self)),
    {
        if old_layout == new_layout {
            Ok(MemoryBlock { handle, size: old_layout.size() })
        } else {
            move_block(self, handle, old_layout, new_layout, old_layout.size(), true)
        }
    }

    fn shrink(&mut self, handle: MultiHandle, old_layout: Layout, new_layout: Layout) -> (r: Result<
        MemoryBlock<MultiHandle>,
        AllocErr,
    >)
        ensures
            old_layout != new_layout ==> (r is Ok <==> (new_layout.spec_size() == 0 || bump_down_spec(
                old(self).spec_offset(),
                NonEmptyLayout::spec_from(new_layout),
                ALIGN,
            ) is Some)),
            old_layout != new_layout && r is Err ==> old(self).allocate_any_post(new_layout, *final(self), r),
            old_layout != new_layout && r is Ok ==> exists|mid: Self, copied: Self|
                #![trigger old(self).allocate_any_post(new_layout, mid, r), mid.same_state(copied)]
                old(self).allocate_any_post(new_layout, mid, r) && mid.same_state(copied)
                    && copied.deallocate_any_post(handle, old_layout, *final(self)),
    {
        if old_layout == new_layout {
            Ok(MemoryBlock { handle, size: old_layout.size() })
        } else {
            move_block(self, handle, old_layout, new_layout, new_layout.size(), true)
        }
    }
}


/// An empty layout never reaches the backend: allocating it gives the
/// dangling handle and no bytes and leaves the storage as it was, and giving
/// it back does nothing.
pub proof fn lemma_multi_zero_size<const SIZE: usize, const ALIGN: usize>(
    s: MultiStackStorage<SIZE, ALIGN>,
    layout: Layout,
    post: MultiStackStorage<SIZE, ALIGN>,
    r: Result<MemoryBlock<MultiHandle>, AllocErr>,
    handle: MultiHandle,
    after_free: MultiStackStorage<SIZE, ALIGN>,
)
    requires
        layout.spec_size() == 0,
    ensures
        s.allocate_any_post(layout, post, r) ==> post == s && r == dangling_block::<MultiHandle>(layout),
        s.deallocate_any_post(handle, layout, after_free) ==> after_free == s,
{
}

/// What a multi-stack allocation does: the block is carved from just below
/// the current offset, rounded down to the alignment, and the offset moves
/// to its start, so it lies below every block handed out before; it fails,
/// changing nothing, when the alignment exceeds `ALIGN` or the space runs
/// out. No allocated handle is the sentinel.
pub proof fn lemma_multi_allocate<const SIZE: usize, const ALIGN: usize>(
    s: MultiStackStorage<SIZE, ALIGN>,
    layout: NonEmptyLayout,
    post: MultiStackStorage<SIZE, ALIGN>,
    r: Result<NonEmptyMemoryBlock<MultiHandle>, AllocErr>,
)
    requires
        s.wf(),
        s.allocate_post(layout, post, r),
        valid_layout(layout.spec_size() as int, layout.spec_align() as int),
        layout.spec_size() > 0,
    ensures
        match bump_down_spec(s.spec_offset(), layout, ALIGN) {
            Some(begin) => {
                &&& r == Ok::<NonEmptyMemoryBlock<MultiHandle>, AllocErr>(
                    NonEmptyMemoryBlock { handle: MultiHandle(begin), size: (s.spec_offset() - begin) as usize },
                )
                &&& post.spec_offset() == begin
                &&& post.mem() == s.mem()
                &&& begin < usize::MAX
            },
            None => r == Err::<NonEmptyMemoryBlock<MultiHandle>, AllocErr>(AllocErr(layout.spec_layout(), ()))
                && post == s,
        },
{
    crate::layout::lemma_pow2_pos(layout.spec_align() as int);
    crate::layout::lemma_bump_down_below(s.spec_offset(), layout, ALIGN);
}

} // verus!
