use crate::core_traits::{
    moved_post, Resize,
    block_result, dangling_block, empty_block, into_block_result, move_block, AllocErr, Handle,
    MemoryBlock, NonEmptyMemoryBlock, OffsetHandle, ResizableStorage, Storage, same_addressing,
};
use crate::layout::{
    bump_down, bump_down_spec, is_pow2, lemma_shift_back, shift, shifted, valid_layout, Layout,
    NonEmptyLayout,
};
use crate::single::{lemma_single_allocate_any, slot_fits, SingleHandle, SingleStackStorage};
use vstd::prelude::*;

verus! {

/// The smallest power of two that is at least `n`, searching upward from `p`.
pub open spec fn next_pow2_from(p: nat, n: nat) -> nat
    decreases n - p,
{
    if p == 0 {
        1
    } else if p >= n {
        p
    } else if 2 * p >= n {
        2 * p
    } else {
        next_pow2_from(2 * p, n)
    }
}

/// The smallest power of two that is at least `n` (1 for 0).
pub open spec fn next_pow2(n: nat) -> nat {
    next_pow2_from(1, n)
}

proof fn lemma_next_pow2_from(p: nat, n: nat)
    requires
        is_pow2(p as int),
    ensures
        is_pow2(next_pow2_from(p, n) as int),
        next_pow2_from(p, n) >= n,
    decreases n - p,
{
    if p >= n {
    } else if 2 * p >= n {
        assert(is_pow2(2 * p as int)) by {
            assert((2 * p as int) / 2 == p as int);
        }
    } else {
        assert(is_pow2(2 * p as int)) by {
            assert((2 * p as int) / 2 == p as int);
        }
        lemma_next_pow2_from(2 * p, n);
    }
}

/// The smallest power of two that is at least `n`.
pub fn next_power_of_two(n: usize) -> (r: usize)
    requires
        next_pow2(n as nat) <= usize::MAX,
    ensures
        r == next_pow2(n as nat),
        is_pow2(r as int),
{
    proof {
        lemma_next_pow2_from(1, n as nat);
    }
    let mut p: usize = 1;
    while p < n
        invariant
            1 <= p,
            is_pow2(p as int),
            next_pow2_from(p as nat, n as nat) == next_pow2(n as nat),
            next_pow2(n as nat) <= usize::MAX,
        decreases usize::MAX - p,
    {
        proof {
            lemma_next_pow2_from(2 * p as nat, n as nat);
            assert(is_pow2(2 * p as int)) by {
                assert((2 * p as int) / 2 == p as int);
            }
        }
        p = p * 2;
    }
    p
}

/// A handle into a bump storage: the offset of the block from the start of
/// the region.
#[derive(Clone, Copy, PartialEq, Eq, Structural, Debug)]
pub struct BumpHandle(usize);

impl Handle for BumpHandle {
    closed spec fn spec_dangling(align: usize) -> BumpHandle {
        BumpHandle(usize::MAX)
    }

    fn dangling(align: usize) -> (r: BumpHandle) {
        BumpHandle(usize::MAX)
    }
}

impl BumpHandle {
    /// The offset this handle names.
    pub closed spec fn spec_offset(self) -> usize {
        self.0
    }

    /// Whether this is the sentinel handle.
    pub fn is_dangling(self) -> (r: bool)
        ensures
            r == (self.spec_offset() == usize::MAX),
    {
        self.0 == usize::MAX
    }
}

/// A region taken from an inner storage once, handed out from the top down;
/// single blocks are never reclaimed, the region only as a whole.
pub struct BumpStorage<S: Storage, const MAX_ALIGN: usize> {
    storage: S,
    start: S::Handle,
    max_align: usize,
    capacity: usize,
    offset: usize,
}

impl<S: Storage, const MAX_ALIGN: usize> BumpStorage<S, MAX_ALIGN> {
    /// Bytes below the top that are still free.
    pub closed spec fn remaining(&self) -> usize {
        self.offset
    }

    /// The storage the region was taken from.
    pub closed spec fn inner(&self) -> S {
        self.storage
    }

    /// The size of the whole region.
    pub closed spec fn capacity(&self) -> usize {
        self.capacity
    }

    /// The largest alignment served.
    pub closed spec fn max_align(&self) -> usize {
        self.max_align
    }

    /// The same storage with its top at `offset`.
    pub closed spec fn with_offset(&self, offset: usize) -> Self {
        BumpStorage { offset, ..*self }
    }

    /// The layout of the region taken for `space` bytes.
    pub open spec fn region_layout(space: usize) -> Layout {
        Layout::spec_new(space, next_pow2(MAX_ALIGN as nat) as usize)
    }

    /// Takes a region of at least `space` bytes, aligned to `MAX_ALIGN`
    /// rounded up to a power of two, from `storage`.
    pub fn try_new(storage: S, space: usize) -> (r: Result<Self, AllocErr>)
        requires
            storage.wf(),
            next_pow2(MAX_ALIGN as nat) <= usize::MAX,
            valid_layout(space as int, next_pow2(MAX_ALIGN as nat) as int),
        ensures
            r is Ok ==> r->Ok_0.wf(),
            r is Ok ==> r->Ok_0.remaining() >= space && r->Ok_0.capacity() == r->Ok_0.remaining(),
            r is Ok ==> r->Ok_0.max_align() == next_pow2(MAX_ALIGN as nat),
            r is Ok ==> exists|
                b: MemoryBlock<S::Handle>,
            |
                storage.allocate_any_post(
                    Self::region_layout(space),
                    r->Ok_0.inner(),
                    Ok::<MemoryBlock<S::Handle>, AllocErr>(b),
                ) && r->Ok_0.remaining() == b.size,
            r is Err ==> exists|post: S|
                storage.allocate_any_post(
                    Self::region_layout(space),
                    post,
                    Err::<MemoryBlock<S::Handle>, AllocErr>(r->Err_0),
                ),
    {
        let mut inner = storage;
        let max_align = next_power_of_two(MAX_ALIGN);
        let layout = match Layout::from_size_align(space, max_align) {
            Some(layout) => layout,
            None => unreached(),
        };
        let res = inner.allocate(layout);
        match res {
            Ok(block) => {
                let bump = BumpStorage {
                    start: block.handle,
                    capacity: block.size,
                    offset: block.size,
                    max_align,
                    storage: inner,
                };
                proof {
                    assert(storage.allocate_any_post(
                        Self::region_layout(space),
                        bump.inner(),
                        Ok::<MemoryBlock<S::Handle>, AllocErr>(block),
                    ) && bump.remaining() == block.size);
                    assert(exists|b: MemoryBlock<S::Handle>|
                        storage.allocate_any_post(
                            Self::region_layout(space),
                            bump.inner(),
                            Ok::<MemoryBlock<S::Handle>, AllocErr>(b),
                        ) && bump.remaining() == b.size);
                }
                let out: Result<Self, AllocErr> = Ok(bump);
                assert(out->Ok_0 == bump);
                out
            },
            Err(e) => {
                proof {
                    assert(storage.allocate_any_post(
                        Self::region_layout(space),
                        inner,
                        Err::<MemoryBlock<S::Handle>, AllocErr>(e),
                    ));
                    assert(exists|post: S|
                        storage.allocate_any_post(
                            Self::region_layout(space),
                            post,
                            Err::<MemoryBlock<S::Handle>, AllocErr>(e),
                        ));
                }
                let out: Result<Self, AllocErr> = Err(e);
                assert(out->Err_0 == e);
                out
            },
        }
    }

    /// As `try_new`, for a storage that is known to grant the region.
    pub fn new(storage: S, space: usize) -> (r: Self)
        requires
            storage.wf(),
            next_pow2(MAX_ALIGN as nat) <= usize::MAX,
            valid_layout(space as int, next_pow2(MAX_ALIGN as nat) as int),
            forall|post: S, res: Result<MemoryBlock<S::Handle>, AllocErr>|
                storage.allocate_any_post(Self::region_layout(space), post, res) ==> res is Ok,
        ensures
            r.wf(),
            r.remaining() >= space,
            r.max_align() == next_pow2(MAX_ALIGN as nat),
            exists|b: MemoryBlock<S::Handle>|
                storage.allocate_any_post(
                    Self::region_layout(space),
                    r.inner(),
                    Ok::<MemoryBlock<S::Handle>, AllocErr>(b),
                ) && r.remaining() == b.size,
    {
        match Self::try_new(storage, space) {
            Ok(bump) => bump,
            Err(e) => unreached(),
        }
    }

    /// Bytes still free below the top.
    pub fn remaining_space(&self) -> (r: usize)
        ensures
            r == self.remaining(),
    {
        self.offset
    }

    /// Moves the top back to `offset`, reclaiming everything handed out
    /// below it.
    pub fn reset(&mut self, offset: usize)
        requires
            old(self).wf(),
            offset <= old(self).capacity(),
        ensures
            final(self).wf(),
            *final(self) == old(self).with_offset(offset),
            final(self).remaining() == offset,
            final(self).inner() == old(self).inner(),
            final(self).max_align() == old(self).max_align(),
            final(self).mem() == old(self).mem(),
            same_addressing(*old(self), *final(self)),
    {
        self.offset = offset;
    }
}

impl<S: Storage, const MAX_ALIGN: usize> Storage for BumpStorage<S, MAX_ALIGN> {
    type Handle = BumpHandle;

    closed spec fn wf(&self) -> bool {
        &&& self.storage.wf()
        &&& is_pow2(self.max_align as int)
        &&& self.max_align == next_pow2(MAX_ALIGN as nat)
        &&& self.offset <= self.capacity
        &&& forall|j: int| 0 <= j < self.capacity ==> #[trigger] self.storage.in_bounds(self.start, j)
    }

    closed spec fn mem(&self) -> Seq<u8> {
        self.storage.mem()
    }

    closed spec fn addr(&self, handle: BumpHandle) -> int {
        self.storage.addr(self.start) + handle.0
    }

    closed spec fn in_bounds(&self, handle: BumpHandle, index: int) -> bool {
        &&& 0 <= handle.0 + index <= usize::MAX
        &&& self.storage.in_bounds(self.start, handle.0 + index)
    }

    closed spec fn same_state(&self, other: Self) -> bool {
        &&& other.start == self.start
        &&& other.max_align == self.max_align
        &&& other.offset == self.offset
        &&& other.capacity == self.capacity
        &&& self.storage.same_state(other.storage)
    }

    proof fn lemma_same_state_refl(&self) {
        self.storage.lemma_same_state_refl();
    }

    proof fn lemma_same_state_trans(&self, b: Self, c: Self) {
        self.storage.lemma_same_state_trans(b.storage, c.storage);
    }

    /// The block is carved from just below the top, rounded down to the
    /// alignment; it fails when the alignment exceeds the largest served or
    /// the region runs out.
    closed spec fn allocate_post(
        &self,
        layout: NonEmptyLayout,
        post: Self,
        r: Result<NonEmptyMemoryBlock<BumpHandle>, AllocErr>,
    ) -> bool {
        match bump_down_spec(self.offset, layout, self.max_align) {
            Some(begin) => {
                &&& post == BumpStorage::<S, MAX_ALIGN> { offset: begin, ..*self }
                &&& r == Ok::<NonEmptyMemoryBlock<BumpHandle>, AllocErr>(
                    NonEmptyMemoryBlock { handle: BumpHandle(begin), size: (self.offset - begin) as usize },
                )
            },
            None => {
                &&& post == *self
                &&& r == Err::<NonEmptyMemoryBlock<BumpHandle>, AllocErr>(AllocErr(layout.spec_layout(), ()))
            },
        }
    }

    closed spec fn deallocate_post(&self, handle: BumpHandle, layout: NonEmptyLayout, post: Self) -> bool {
        post == *self
    }

    closed spec fn allocate_any_post(
        &self,
        layout: Layout,
        post: Self,
        r: Result<MemoryBlock<BumpHandle>, AllocErr>,
    ) -> bool {
        if layout.spec_size() == 0 {
            post == *self && r == dangling_block::<BumpHandle>(layout)
        } else {
            exists|rn: Result<NonEmptyMemoryBlock<BumpHandle>, AllocErr>|
                self.allocate_post(NonEmptyLayout::spec_from(layout), post, rn) && r == block_result(rn)
        }
    }

    closed spec fn deallocate_any_post(&self, handle: BumpHandle, layout: Layout, post: Self) -> bool {
        post == *self
    }

    proof fn lemma_allocate_keeps(&self, layout: NonEmptyLayout, post: Self, r: Result<NonEmptyMemoryBlock<BumpHandle>, AllocErr>) {
    }

    proof fn lemma_in_bounds(&self, handle: BumpHandle, index: int) {
        self.storage.lemma_in_bounds(self.start, handle.0 + index);
    }

    fn get(&self, handle: BumpHandle, index: usize) -> (r: Option<u8>) {
        if index > usize::MAX - handle.0 {
            return None;
        }
        self.storage.get(self.start, handle.0 + index)
    }

    fn get_mut(&mut self, handle: BumpHandle, index: usize, value: u8) -> (r: bool)
        ensures
            final(self).remaining() == old(self).remaining(),
            final(self).capacity() == old(self).capacity(),
    {
        if index > usize::MAX - handle.0 {
            proof {
                self.lemma_same_state_refl();
            }
            return false;
        }
        self.storage.get_mut(self.start, handle.0 + index, value)
    }

    fn allocate_nonempty(&mut self, layout: NonEmptyLayout) -> (r: Result<
        NonEmptyMemoryBlock<BumpHandle>,
        AllocErr,
    >) {
        match bump_down(self.offset, layout, self.max_align) {
            Some(begin) => {
                let size = self.offset - begin;
                self.offset = begin;
                Ok(NonEmptyMemoryBlock { handle: BumpHandle(begin), size })
            },
            None => Err(AllocErr::new(layout.to_layout())),
        }
    }

    fn deallocate_nonempty(&mut self, handle: BumpHandle, layout: NonEmptyLayout) {
    }

    fn allocate(&mut self, layout: Layout) -> (r: Result<MemoryBlock<BumpHandle>, AllocErr>) {
        match NonEmptyLayout::new(layout) {
            Some(ne) => {
                let r = self.allocate_nonempty(ne);
                proof {
                    assert(old(self).allocate_post(NonEmptyLayout::spec_from(layout), *self, r));
                }
                into_block_result(r)
            },
            None => empty_block(layout),
        }
    }

    fn deallocate(&mut self, handle: BumpHandle, layout: Layout) {
    }
}

impl<S: Storage, const MAX_ALIGN: usize> ResizableStorage for BumpStorage<S, MAX_ALIGN> {
    closed spec fn resize_post(
        &self,
        handle: BumpHandle,
        old_layout: Layout,
        new_layout: Layout,
        kind: Resize,
        post: Self,
        r: Result<MemoryBlock<BumpHandle>, AllocErr>,
    ) -> bool {
        if old_layout == new_layout {
            r == Ok::<MemoryBlock<BumpHandle>, AllocErr>(MemoryBlock { handle, size: old_layout.spec_size() }) && post == *self
        } else {
            moved_post(*self, handle, old_layout, new_layout, post, r)
        }
    }

    fn grow(&mut self, handle: BumpHandle, old_layout: Layout, new_layout: Layout) -> (r: Result<
        MemoryBlock<BumpHandle>,
        AllocErr,
    >)
        ensures
            old_layout != new_layout ==> (r is Ok <==> (new_layout.spec_size() == 0 || bump_down_spec(
                old(self).remaining(),
                NonEmptyLayout::spec_from(new_layout),
                old(self).max_align(),
            ) is Some)),
            old_layout != new_layout && r is Err ==> old(self).allocate_any_post(new_layout, *final(self), r),
            old_layout != new_layout && r is Ok ==> exists|mid: Self, copied: Self|
                #![trigger old(self).allocate_any_post(new_layout, mid, r), mid.same_state(copied)]
                old(self).allocate_any_post(new_layout, mid, r) && mid.same_state(copied)
                    && copied.deallocate_any_post(handle, old_layout, *final(self)),
    {
        if old_layout == new_layout {
            Ok(MemoryBlock { handle, size: old_layout.size() })
        } else {
            move_block(self, handle, old_layout, new_layout, old_layout.size(), false)
        }
    }

    fn grow_zeroed(&mut self, handle: BumpHandle, old_layout: Layout, new_layout: Layout) -> (r: Result<
        MemoryBlock<BumpHandle>,
        AllocErr,
    >)
        ensures
            old_layout != new_layout ==> (r is Ok <==> (new_layout.spec_size() == 0 || bump_down_spec(
                old(self).remaining(),
                NonEmptyLayout::spec_from(new_layout),
                old(self).max_align(),
            ) is Some)),
            old_layout != new_layout && r is Err ==> old(self).allocate_any_post(new_layout, *final(self), r),
            old_layout != new_layout && r is Ok ==> exists|mid: Self, copied: Self|
                #![trigger old(self).allocate_any_post(new_layout, mid, r), mid.same_state(copied)]
                old(self).allocate_any_post(new_layout, mid, r) && mid.same_state(copied)
                    && copied.deallocate_any_post(handle, old_layout, *final(self)),
    {
        if old_layout == new_layout {
            Ok(MemoryBlock { handle, size: old_layout.size() })
        } else {
            move_block(self, handle, old_layout, new_layout, old_layout.size(), true)
        }
    }

    fn shrink(&mut self, handle: BumpHandle, old_layout: Layout, new_layout: Layout) -> (r: Result<
        MemoryBlock<BumpHandle>,
        AllocErr,
    >)
        ensures
            old_layout != new_layout ==> (r is Ok <==> (new_layout.spec_size() == 0 || bump_down_spec(
                old(self).remaining(),
                NonEmptyLayout::spec_from(new_layout),
                old(self).max_align(),
            ) is Some)),
            old_layout != new_layout && r is Err ==> old(self).allocate_any_post(new_layout, *final(self), r),
            old_layout != new_layout && r is Ok ==> exists|mid: Self, copied: Self|
                #![trigger old(self).allocate_any_post(new_layout, mid, r), mid.same_state(copied)]
                old(self).allocate_any_post(new_layout, mid, r) && mid.same_state(copied)
                    && copied.deallocate_any_post(handle, old_layout, *final(self)),
    {
        if old_layout == new_layout {
            Ok(MemoryBlock { handle, size: old_layout.size() })
        } else {
            move_block(self, handle, old_layout, new_layout, new_layout.size(), true)
        }
    }
}

impl<S: Storage, const MAX_ALIGN: usize> OffsetHandle for BumpStorage<S, MAX_ALIGN> {
    closed spec fn spec_offset(&self, handle: BumpHandle, offset: isize) -> BumpHandle {
        BumpHandle(shifted(handle.0, offset))
    }

    closed spec fn offset_ok(&self, handle: BumpHandle, offset: isize) -> bool {
        0 <= handle.0 + offset <= usize::MAX
    }

    proof fn lemma_offset(&self, handle: BumpHandle, offset: isize) {
        if offset > isize::MIN {
            lemma_shift_back(handle.0, offset);
        }
    }

    fn offset(&self, handle: BumpHandle, offset: isize) -> (r: BumpHandle) {
        BumpHandle(shift(handle.0, offset))
    }

    fn checked_offset(&self, handle: BumpHandle, offset: isize) -> (r: Option<BumpHandle>) {
        match handle.0.checked_add_signed(offset) {
            Some(h) => Some(BumpHandle(h)),
            None => None,
        }
    }
}

/// A bump storage that counts its live blocks and rewinds to the top when
/// the last one is given back.
pub struct CountingBumpStorage<S: Storage, const MAX_ALIGN: usize> {
    bump: BumpStorage<S, MAX_ALIGN>,
    max_offset: usize,
    count: usize,
}

impl<S: Storage, const MAX_ALIGN: usize> CountingBumpStorage<S, MAX_ALIGN> {
    /// Live blocks.
    pub closed spec fn live(&self) -> usize {
        self.count
    }

    /// Bytes still free below the top.
    pub closed spec fn remaining(&self) -> usize {
        self.bump.offset
    }

    /// The top of the region, where the storage rewinds to.
    pub closed spec fn top(&self) -> usize {
        self.max_offset
    }

    /// The storage the region was taken from.
    pub closed spec fn inner(&self) -> S {
        self.bump.storage
    }

    /// The bump storage that is counted.
    pub closed spec fn inner_bump(&self) -> BumpStorage<S, MAX_ALIGN> {
        self.bump
    }

    /// Takes a region as `BumpStorage::try_new` does, with no live blocks.
    pub fn try_new(storage: S, space: usize) -> (r: Result<Self, AllocErr>)
        requires
            storage.wf(),
            next_pow2(MAX_ALIGN as nat) <= usize::MAX,
            valid_layout(space as int, next_pow2(MAX_ALIGN as nat) as int),
        ensures
            r is Ok ==> r->Ok_0.wf() && r->Ok_0.live() == 0 && r->Ok_0.remaining() == r->Ok_0.top(),
            r is Ok ==> exists|b: MemoryBlock<S::Handle>|
                storage.allocate_any_post(
                    BumpStorage::<S, MAX_ALIGN>::region_layout(space),
                    r->Ok_0.inner(),
                    Ok::<MemoryBlock<S::Handle>, AllocErr>(b),
                ) && r->Ok_0.top() == b.size,
            r is Err ==> exists|post: S|
                storage.allocate_any_post(
                    BumpStorage::<S, MAX_ALIGN>::region_layout(space),
                    post,
                    Err::<MemoryBlock<S::Handle>, AllocErr>(r->Err_0),
                ),
    {
        match BumpStorage::try_new(storage, space) {
            Ok(bump) => {
                let max_offset = bump.remaining_space();
                let out: Result<Self, AllocErr> = Ok(CountingBumpStorage { bump, max_offset, count: 0 });
                proof {
                    let b = choose|b: MemoryBlock<S::Handle>|
                        storage.allocate_any_post(
                            BumpStorage::<S, MAX_ALIGN>::region_layout(space),
                            bump.inner(),
                            Ok::<MemoryBlock<S::Handle>, AllocErr>(b),
                        ) && bump.remaining() == b.size;
                    assert(out->Ok_0.bump == bump);
                    assert(storage.allocate_any_post(
                        BumpStorage::<S, MAX_ALIGN>::region_layout(space),
                        out->Ok_0.inner(),
                        Ok::<MemoryBlock<S::Handle>, AllocErr>(b),
                    ) && out->Ok_0.top() == b.size);
                }
                out
            },
            Err(e) => {
                let out: Result<Self, AllocErr> = Err(e);
                assert(out->Err_0 == e);
                out
            },
        }
    }

    /// As `try_new`, for a storage that is known to grant the region.
    pub fn new(storage: S, space: usize) -> (r: Self)
        requires
            storage.wf(),
            next_pow2(MAX_ALIGN as nat) <= usize::MAX,
            valid_layout(space as int, next_pow2(MAX_ALIGN as nat) as int),
            forall|post: S, res: Result<MemoryBlock<S::Handle>, AllocErr>|
                storage.allocate_any_post(BumpStorage::<S, MAX_ALIGN>::region_layout(space), post, res)
                    ==> res is Ok,
        ensures
            r.wf(),
            r.live() == 0,
            r.remaining() == r.top(),
    {
        match Self::try_new(storage, space) {
            Ok(bump) => bump,
            Err(e) => unreached(),
        }
    }

    /// Bytes still free below the top.
    pub fn remaining_space(&self) -> (r: usize)
        ensures
            r == self.remaining(),
    {
        self.bump.remaining_space()
    }
}

impl<S: Storage, const MAX_ALIGN: usize> Storage for CountingBumpStorage<S, MAX_ALIGN> {
    type Handle = BumpHandle;

    closed spec fn wf(&self) -> bool {
        &&& self.bump.wf()
        &&& self.bump.offset <= self.max_offset
        &&& self.max_offset <= self.bump.capacity
        &&& self.count <= self.max_offset - self.bump.offset
    }

    closed spec fn mem(&self) -> Seq<u8> {
        self.bump.mem()
    }

    closed spec fn addr(&self, handle: BumpHandle) -> int {
        self.bump.addr(handle)
    }

    closed spec fn in_bounds(&self, handle: BumpHandle, index: int) -> bool {
        self.bump.in_bounds(handle, index)
    }

    closed spec fn same_state(&self, other: Self) -> bool {
        &&& other.count == self.count
        &&& other.max_offset == self.max_offset
        &&& self.bump.same_state(other.bump)
    }

    proof fn lemma_same_state_refl(&self) {
        self.bump.lemma_same_state_refl();
    }

    proof fn lemma_same_state_trans(&self, b: Self, c: Self) {
        self.bump.lemma_same_state_trans(b.bump, c.bump);
    }

    /// As the bump storage, counting each block handed out.
    closed spec fn allocate_post(
        &self,
        layout: NonEmptyLayout,
        post: Self,
        r: Result<NonEmptyMemoryBlock<BumpHandle>, AllocErr>,
    ) -> bool {
        &&& self.bump.allocate_post(layout, post.bump, r)
        &&& post.max_offset == self.max_offset
        &&& post.count == if r is Ok {
            self.count + 1
        } else {
            self.count as int
        }
    }

    /// One block fewer; with none left the region rewinds to the top.
    closed spec fn deallocate_post(&self, handle: BumpHandle, layout: NonEmptyLayout, post: Self) -> bool {
        let count = if self.count > 0 {
            self.count - 1
        } else {
            0
        };
        &&& post.max_offset == self.max_offset
        &&& post.count == count
        &&& post.bump == if count == 0 {
            self.bump.with_offset(self.max_offset)
        } else {
            self.bump
        }
    }

    closed spec fn allocate_any_post(
        &self,
        layout: Layout,
        post: Self,
        r: Result<MemoryBlock<BumpHandle>, AllocErr>,
    ) -> bool {
        if layout.spec_size() == 0 {
            post == *self && r == dangling_block::<BumpHandle>(layout)
        } else {
            exists|rn: Result<NonEmptyMemoryBlock<BumpHandle>, AllocErr>|
                self.allocate_post(NonEmptyLayout::spec_from(layout), post, rn) && r == block_result(rn)
        }
    }

    closed spec fn deallocate_any_post(&self, handle: BumpHandle, layout: Layout, post: Self) -> bool {
        if layout.spec_size() == 0 {
            post == *self
        } else {
            self.deallocate_post(handle, NonEmptyLayout::spec_from(layout), post)
        }
    }

    proof fn lemma_allocate_keeps(&self, layout: NonEmptyLayout, post: Self, r: Result<NonEmptyMemoryBlock<BumpHandle>, AllocErr>) {
        self.bump.lemma_allocate_keeps(layout, post.bump, r);
    }

    proof fn lemma_in_bounds(&self, handle: BumpHandle, index: int) {
        self.bump.lemma_in_bounds(handle, index);
    }

    fn get(&self, handle: BumpHandle, index: usize) -> (r: Option<u8>) {
        self.bump.get(handle, index)
    }

    fn get_mut(&mut self, handle: BumpHandle, index: usize, value: u8) -> (r: bool) {
        self.bump.get_mut(handle, index, value)
    }

    fn allocate_nonempty(&mut self, layout: NonEmptyLayout) -> (r: Result<
        NonEmptyMemoryBlock<BumpHandle>,
        AllocErr,
    >) {
        let size = layout.size();
        let align = layout.align();
        let r = self.bump.allocate_nonempty(layout);
        proof {
            crate::layout::lemma_pow2_pos(align as int);
            crate::layout::lemma_bump_down_below(old(self).bump.offset, layout, old(self).bump.max_align);
            match bump_down_spec(old(self).bump.offset, layout, old(self).bump.max_align) {
                Some(begin) => {
                    assert(self.bump.offset == begin);
                    assert(r->Ok_0.size == old(self).bump.offset - begin);
                },
                None => {
                    assert(self.bump == old(self).bump);
                },
            }
        }
        if r.is_ok() {
            self.count = self.count + 1;
        }
        r
    }

    fn deallocate_nonempty(&mut self, handle: BumpHandle, layout: NonEmptyLayout) {
        if self.count > 0 {
            self.count = self.count - 1;
        }
        if self.count == 0 {
            let top = self.max_offset;
            self.bump.reset(top);
        }
    }

    fn allocate(&mut self, layout: Layout) -> (r: Result<MemoryBlock<BumpHandle>, AllocErr>) {
        match NonEmptyLayout::new(layout) {
            Some(ne) => {
                let r = self.allocate_nonempty(ne);
                proof {
                    assert(old(self).allocate_post(NonEmptyLayout::spec_from(layout), *self, r));
                }
                into_block_result(r)
            },
            None => empty_block(layout),
        }
    }

    fn deallocate(&mut self, handle: BumpHandle, layout: Layout) {
        match NonEmptyLayout::new(layout) {
            Some(ne) => self.deallocate_nonempty(handle, ne),
            None => {},
        }
    }
}

impl<S: Storage, const MAX_ALIGN: usize> ResizableStorage for CountingBumpStorage<S, MAX_ALIGN> {
    closed spec fn resize_post(
        &self,
        handle: BumpHandle,
        old_layout: Layout,
        new_layout: Layout,
        kind: Resize,
        post: Self,
        r: Result<MemoryBlock<BumpHandle>, AllocErr>,
    ) -> bool {
        if old_layout == new_layout {
            r == Ok::<MemoryBlock<BumpHandle>, AllocErr>(MemoryBlock { handle, size: old_layout.spec_size() }) && post == *self
        } else {
            moved_post(*self, handle, old_layout, new_layout, post, r)
        }
    }

    fn grow(&mut self, handle: BumpHandle, old_layout: Layout, new_layout: Layout) -> (r: Result<
        MemoryBlock<BumpHandle>,
        AllocErr,
    >) {
        if old_layout == new_layout {
            Ok(MemoryBlock { handle, size: old_layout.size() })
        } else {
            move_block(self, handle, old_layout, new_layout, old_layout.size(), false)
        }
    }

    fn grow_zeroed(&mut self, handle: BumpHandle, old_layout: Layout, new_layout: Layout) -> (r: Result<
        MemoryBlock<BumpHandle>,
        AllocErr,
    >) {
        if old_layout == new_layout {
            Ok(MemoryBlock { handle, size: old_layout.size() })
        } else {
            move_block(self, handle, old_layout, new_layout, old_layout.size(), true)
        }
    }

    fn shrink(&mut self, handle: BumpHandle, old_layout: Layout, new_layout: Layout) -> (r: Result<
        MemoryBlock<BumpHandle>,
        AllocErr,
    >) {
        if old_layout == new_layout {
            Ok(MemoryBlock { handle, size: old_layout.size() })
        } else {
            move_block(self, handle, old_layout, new_layout, new_layout.size(), true)
        }
    }
}

impl<S: Storage, const MAX_ALIGN: usize> OffsetHandle for CountingBumpStorage<S, MAX_ALIGN> {
    closed spec fn spec_offset(&self, handle: BumpHandle, offset: isize) -> BumpHandle {
        self.bump.spec_offset(handle, offset)
    }

    closed spec fn offset_ok(&self, handle: BumpHandle, offset: isize) -> bool {
        self.bump.offset_ok(handle, offset)
    }

    proof fn lemma_offset(&self, handle: BumpHandle, offset: isize) {
        self.bump.lemma_offset(handle, offset);
    }

    fn offset(&self, handle: BumpHandle, offset: isize) -> (r: BumpHandle) {
        self.bump.offset(handle, offset)
    }

    fn checked_offset(&self, handle: BumpHandle, offset: isize) -> (r: Option<BumpHandle>) {
        self.bump.checked_offset(handle, offset)
    }
}

/// Giving back the last live block of a counting bump storage rewinds it to
/// the top of its region: the region is reclaimed exactly when it is empty.
pub proof fn lemma_counting_bump_rewinds<S: Storage, const MAX_ALIGN: usize>(
    s0: CountingBumpStorage<S, MAX_ALIGN>,
    handle: BumpHandle,
    layout: NonEmptyLayout,
    s1: CountingBumpStorage<S, MAX_ALIGN>,
)
    requires
        s0.deallocate_post(handle, layout, s1),
    ensures
        s1.live() == (if s0.live() > 0 {
            s0.live() - 1
        } else {
            0
        }),
        s1.live() == 0 ==> s1.remaining() == s1.top(),
        s1.live() > 0 ==> s1.remaining() == s0.remaining(),
        s1.top() == s0.top(),
{
}


/// An empty layout never reaches the backend: allocating it gives the
/// dangling handle and no bytes and leaves the storage as it was, and giving
/// it back does nothing.
pub proof fn lemma_bump_zero_size<S: Storage, const MAX_ALIGN: usize>(
    s: BumpStorage<S, MAX_ALIGN>,
    layout: Layout,
    post: BumpStorage<S, MAX_ALIGN>,
    r: Result<MemoryBlock<BumpHandle>, AllocErr>,
    handle: BumpHandle,
    after_free: BumpStorage<S, MAX_ALIGN>,
)
    requires
        layout.spec_size() == 0,
    ensures
        s.allocate_any_post(layout, post, r) ==> post == s && r == dangling_block::<BumpHandle>(layout),
        s.deallocate_any_post(handle, layout, after_free) ==> after_free == s,
{
}


/// An empty layout never reaches the backend: allocating it gives the
/// dangling handle and no bytes and leaves the storage as it was, and giving
/// it back does nothing.
pub proof fn lemma_counting_bump_zero_size<S: Storage, const MAX_ALIGN: usize>(
    s: CountingBumpStorage<S, MAX_ALIGN>,
    layout: Layout,
    post: CountingBumpStorage<S, MAX_ALIGN>,
    r: Result<MemoryBlock<BumpHandle>, AllocErr>,
    handle: BumpHandle,
    after_free: CountingBumpStorage<S, MAX_ALIGN>,
)
    requires
        layout.spec_size() == 0,
    ensures
        s.allocate_any_post(layout, post, r) ==> post == s && r == dangling_block::<BumpHandle>(layout),
        s.deallocate_any_post(handle, layout, after_free) ==> after_free == s,
{
}

/// What a bump allocation does: the block is carved from just below the
/// top, rounded down to the alignment, and the top moves to its start, so
/// the block lies below, and apart from, every block handed out before; it
/// fails, changing nothing, when the alignment exceeds the largest served or
/// the space below the top is too small. No allocated handle is the
/// sentinel, which is the handle at offset `usize::MAX`.
pub proof fn lemma_bump_allocate<S: Storage, const MAX_ALIGN: usize>(
    s: BumpStorage<S, MAX_ALIGN>,
    layout: NonEmptyLayout,
    post: BumpStorage<S, MAX_ALIGN>,
    r: Result<NonEmptyMemoryBlock<BumpHandle>, AllocErr>,
    align: usize,
)
    requires
        s.wf(),
        s.allocate_post(layout, post, r),
        valid_layout(layout.spec_size() as int, layout.spec_align() as int),
        layout.spec_size() > 0,
    ensures
        match bump_down_spec(s.remaining(), layout, s.max_align()) {
            Some(begin) => {
                &&& r is Ok
                &&& r->Ok_0.handle.spec_offset() == begin
                &&& r->Ok_0.size == s.remaining() - begin
                &&& post.remaining() == begin
                &&& post.inner() == s.inner()
                &&& post.capacity() == s.capacity()
                &&& post.max_align() == s.max_align()
                &&& begin < usize::MAX
            },
            None => r == Err::<NonEmptyMemoryBlock<BumpHandle>, AllocErr>(AllocErr(layout.spec_layout(), ()))
                && post == s,
        },
        BumpHandle::spec_dangling(align).spec_offset() == usize::MAX,
{
    crate::layout::lemma_pow2_pos(layout.spec_align() as int);
    crate::layout::lemma_bump_down_below(s.remaining(), layout, s.max_align());
}

/// What a counting bump allocation does: as the bump storage, with one more
/// live block when it succeeds.
pub proof fn lemma_counting_bump_allocate<S: Storage, const MAX_ALIGN: usize>(
    s: CountingBumpStorage<S, MAX_ALIGN>,
    layout: NonEmptyLayout,
    post: CountingBumpStorage<S, MAX_ALIGN>,
    r: Result<NonEmptyMemoryBlock<BumpHandle>, AllocErr>,
)
    requires
        s.allocate_post(layout, post, r),
        valid_layout(layout.spec_size() as int, layout.spec_align() as int),
    ensures
        match bump_down_spec(s.remaining(), layout, s.inner_bump().max_align()) {
            Some(begin) => {
                &&& r is Ok
                &&& r->Ok_0.handle.spec_offset() == begin
                &&& r->Ok_0.size == s.remaining() - begin
                &&& post.remaining() == begin
                &&& post.live() == s.live() + 1
                &&& post.top() == s.top()
            },
            None => r == Err::<NonEmptyMemoryBlock<BumpHandle>, AllocErr>(AllocErr(layout.spec_layout(), ()))
                && post.remaining() == s.remaining() && post.live() == s.live(),
        },
{
    crate::layout::lemma_pow2_pos(layout.spec_align() as int);
    crate::layout::lemma_bump_down_below(s.remaining(), layout, s.inner_bump().max_align());
    match bump_down_spec(s.remaining(), layout, s.inner_bump().max_align()) {
        Some(begin) => {
            assert(s.bump.allocate_post(layout, post.bump, r));
        },
        None => {
            assert(post.bump == s.bump);
        },
    }
}

/// A bump storage whose region is taken from a free single slot with room
/// for it starts with the whole slot to hand out.
pub proof fn lemma_bump_over_single<const SIZE: usize, const ALIGN: usize, const MAX_ALIGN: usize>(
    single: SingleStackStorage<SIZE, ALIGN>,
    space: usize,
    bump: BumpStorage<SingleStackStorage<SIZE, ALIGN>, MAX_ALIGN>,
    block: MemoryBlock<SingleHandle>,
)
    requires
        !single.is_allocated(),
        slot_fits(SIZE, ALIGN, BumpStorage::<SingleStackStorage<SIZE, ALIGN>, MAX_ALIGN>::region_layout(space)),
        single.allocate_any_post(
            BumpStorage::<SingleStackStorage<SIZE, ALIGN>, MAX_ALIGN>::region_layout(space),
            bump.inner(),
            Ok::<MemoryBlock<SingleHandle>, AllocErr>(block),
        ),
        bump.remaining() == block.size,
    ensures
        bump.remaining() == SIZE,
{
    lemma_single_allocate_any(
        single,
        BumpStorage::<SingleStackStorage<SIZE, ALIGN>, MAX_ALIGN>::region_layout(space),
        bump.inner(),
        Ok::<MemoryBlock<SingleHandle>, AllocErr>(block),
    );
}

} // verus!
