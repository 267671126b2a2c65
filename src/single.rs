use crate::core_traits::{AllocErr, Handle, MemoryBlock, NonEmptyMemoryBlock, OffsetHandle, Storage};
use crate::layout::{lemma_shift_back, shift, shifted, Layout, NonEmptyLayout};
use vstd::prelude::*;

verus! {

/// The handle of a single-slot storage: there is only one block to name.
#[derive(Clone, Copy, PartialEq, Eq, Structural, Debug)]
pub struct SingleHandle;

impl Handle for SingleHandle {
    open spec fn spec_dangling(align: usize) -> SingleHandle {
        SingleHandle
    }

    fn dangling(align: usize) -> (r: SingleHandle) {
        SingleHandle
    }
}

/// A handle that is an address: the sentinel is the alignment itself, as for
/// a dangling pointer.
impl Handle for usize {
    open spec fn spec_dangling(align: usize) -> usize {
        align
    }

    fn dangling(align: usize) -> (r: usize) {
        align
    }
}

/// One block of `SIZE` bytes aligned to `ALIGN`, handed out to one owner at a
/// time.
pub struct SingleStackStorage<const SIZE: usize, const ALIGN: usize> {
    memory: Vec<u8>,
    allocated: bool,
}

/// A single-slot storage whose handles are offsets into the slot, so that
/// they can be shifted.
pub struct OffsetSingleStackStorage<const SIZE: usize, const ALIGN: usize> {
    storage: SingleStackStorage<SIZE, ALIGN>,
}

/// The slot has room and alignment for `layout`.
pub open spec fn slot_fits(size: usize, align: usize, layout: Layout) -> bool {
    layout.spec_size() <= size && layout.spec_align() <= align
}

impl<const SIZE: usize, const ALIGN: usize> SingleStackStorage<SIZE, ALIGN> {
    /// Whether the slot is handed out.
    pub closed spec fn is_allocated(&self) -> bool {
        self.allocated
    }

    /// A free slot filled with zeros.
    pub fn new() -> (r: Self)
        ensures
            r.wf(),
            !r.is_allocated(),
            r.mem() == Seq::new(SIZE as nat, |i: int| 0u8),
    {
        let memory = vec![0u8; SIZE];
        proof {
            assert(memory@ =~= Seq::new(SIZE as nat, |i: int| 0u8));
        }
        SingleStackStorage { memory, allocated: false }
    }

    /// A free slot holding `value`.
    pub fn init(value: Vec<u8>) -> (r: Self)
        requires
            value.len() == SIZE,
        ensures
            r.wf(),
            !r.is_allocated(),
            r.mem() == value@,
    {
        SingleStackStorage { memory: value, allocated: false }
    }

    /// The same slot, addressed by offsets.
    pub fn offsetable(self) -> (r: OffsetSingleStackStorage<SIZE, ALIGN>)
        ensures
            r.wf() == self.wf(),
            r.mem() == self.mem(),
            r.is_allocated() == self.is_allocated(),
    {
        OffsetSingleStackStorage { storage: self }
    }

    /// The slot has room and alignment for `layout`.
    fn fits(layout: Layout) -> (r: bool)
        ensures
            r == slot_fits(SIZE, ALIGN, layout),
    {
        SIZE >= layout.size() && ALIGN >= layout.align()
    }
}

impl<const SIZE: usize, const ALIGN: usize> Storage for SingleStackStorage<SIZE, ALIGN> {
    type Handle = SingleHandle;

    closed spec fn wf(&self) -> bool {
        self.memory@.len() == SIZE
    }

    closed spec fn mem(&self) -> Seq<u8> {
        self.memory@
    }

    closed spec fn addr(&self, handle: SingleHandle) -> int {
        0
    }

    closed spec fn in_bounds(&self, handle: SingleHandle, index: int) -> bool {
        0 <= index < SIZE
    }

    closed spec fn same_state(&self, other: Self) -> bool {
        other.allocated == self.allocated
    }

    proof fn lemma_same_state_refl(&self) {
    }

    proof fn lemma_same_state_trans(&self, b: Self, c: Self) {
    }

    closed spec fn allocate_post(
        &self,
        layout: NonEmptyLayout,
        post: Self,
        r: Result<NonEmptyMemoryBlock<SingleHandle>, AllocErr>,
    ) -> bool {
        if !self.allocated && slot_fits(SIZE, ALIGN, layout.spec_layout()) {
            &&& post == SingleStackStorage::<SIZE, ALIGN> { memory: self.memory, allocated: true }
            &&& r == Ok::<NonEmptyMemoryBlock<SingleHandle>, AllocErr>(
                NonEmptyMemoryBlock { handle: SingleHandle, size: SIZE },
            )
        } else {
            &&& post == *self
            &&& r == Err::<NonEmptyMemoryBlock<SingleHandle>, AllocErr>(AllocErr(layout.spec_layout(), ()))
        }
    }

    closed spec fn deallocate_post(&self, handle: SingleHandle, layout: NonEmptyLayout, post: Self) -> bool {
        post == SingleStackStorage::<SIZE, ALIGN> { memory: self.memory, allocated: false }
    }

    /// An empty layout also takes the slot when it fits, and gets the whole
    /// slot's size.
    closed spec fn allocate_any_post(
        &self,
        layout: Layout,
        post: Self,
        r: Result<MemoryBlock<SingleHandle>, AllocErr>,
    ) -> bool {
        if !self.allocated && slot_fits(SIZE, ALIGN, layout) {
            &&& post == SingleStackStorage::<SIZE, ALIGN> {
                memory: self.memory,
                allocated: layout.spec_size() != 0,
            }
            &&& r == Ok::<MemoryBlock<SingleHandle>, AllocErr>(
                MemoryBlock { handle: SingleHandle, size: SIZE },
            )
        } else {
            &&& post == *self
            &&& r == Err::<MemoryBlock<SingleHandle>, AllocErr>(AllocErr(layout, ()))
        }
    }

    closed spec fn deallocate_any_post(&self, handle: SingleHandle, layout: Layout, post: Self) -> bool {
        post == SingleStackStorage::<SIZE, ALIGN> {
            memory: self.memory,
            allocated: self.allocated && layout.spec_size() == 0,
        }
    }

    proof fn lemma_allocate_keeps(&self, layout: NonEmptyLayout, post: Self, r: Result<NonEmptyMemoryBlock<SingleHandle>, AllocErr>) {
    }

    proof fn lemma_in_bounds(&self, handle: SingleHandle, index: int) {
    }

    fn get(&self, handle: SingleHandle, index: usize) -> (r: Option<u8>) {
        if index < self.memory.len() {
            Some(self.memory[index])
        } else {
            None
        }
    }

    fn get_mut(&mut self, handle: SingleHandle, index: usize, value: u8) -> (r: bool) {
        if index < self.memory.len() {
            self.memory.set(index, value);
            true
        } else {
            false
        }
    }

    fn allocate_nonempty(&mut self, layout: NonEmptyLayout) -> (r: Result<
        NonEmptyMemoryBlock<SingleHandle>,
        AllocErr,
    >) {
        let plain = layout.to_layout();
        if !self.allocated && Self::fits(plain) {
            self.allocated = true;
            Ok(NonEmptyMemoryBlock { handle: SingleHandle, size: SIZE })
        } else {
            Err(AllocErr::new(plain))
        }
    }

    fn deallocate_nonempty(&mut self, handle: SingleHandle, layout: NonEmptyLayout) {
        self.allocated = false;
    }

    fn allocate(&mut self, layout: Layout) -> (r: Result<MemoryBlock<SingleHandle>, AllocErr>) {
        if !self.allocated && Self::fits(layout) {
            self.allocated = layout.size() != 0;
            Ok(MemoryBlock { handle: SingleHandle, size: SIZE })
        } else {
            Err(AllocErr::new(layout))
        }
    }

    fn deallocate(&mut self, handle: SingleHandle, layout: Layout) {
        self.allocated = self.allocated && layout.size() == 0;
    }
}

impl<const SIZE: usize, const ALIGN: usize> OffsetSingleStackStorage<SIZE, ALIGN> {
    /// Whether the slot is handed out.
    pub closed spec fn is_allocated(&self) -> bool {
        self.storage.allocated
    }
}

impl<const SIZE: usize, const ALIGN: usize> Storage for OffsetSingleStackStorage<SIZE, ALIGN> {
    type Handle = usize;

    closed spec fn wf(&self) -> bool {
        self.storage.wf()
    }

    closed spec fn mem(&self) -> Seq<u8> {
        self.storage.mem()
    }

    closed spec fn addr(&self, handle: usize) -> int {
        handle as int
    }

    closed spec fn in_bounds(&self, handle: usize, index: int) -> bool {
        0 <= handle + index < SIZE
    }

    closed spec fn same_state(&self, other: Self) -> bool {
        self.storage.same_state(other.storage)
    }

    proof fn lemma_same_state_refl(&self) {
        self.storage.lemma_same_state_refl();
    }

    proof fn lemma_same_state_trans(&self, b: Self, c: Self) {
        self.storage.lemma_same_state_trans(b.storage, c.storage);
    }

    closed spec fn allocate_post(
        &self,
        layout: NonEmptyLayout,
        post: Self,
        r: Result<NonEmptyMemoryBlock<usize>, AllocErr>,
    ) -> bool {
        exists|inner: Result<NonEmptyMemoryBlock<SingleHandle>, AllocErr>|
            self.storage.allocate_post(layout, post.storage, inner) && r == match inner {
                Ok(b) => Ok(NonEmptyMemoryBlock { handle: 0usize, size: b.size }),
                Err(e) => Err(e),
            }
    }

    closed spec fn deallocate_post(&self, handle: usize, layout: NonEmptyLayout, post: Self) -> bool {
        self.storage.deallocate_post(SingleHandle, layout, post.storage)
    }

    closed spec fn allocate_any_post(
        &self,
        layout: Layout,
        post: Self,
        r: Result<MemoryBlock<usize>, AllocErr>,
    ) -> bool {
        exists|inner: Result<MemoryBlock<SingleHandle>, AllocErr>|
            self.storage.allocate_any_post(layout, post.storage, inner) && r == match inner {
                Ok(b) => Ok(MemoryBlock { handle: 0usize, size: b.size }),
                Err(e) => Err(e),
            }
    }

    closed spec fn deallocate_any_post(&self, handle: usize, layout: Layout, post: Self) -> bool {
        self.storage.deallocate_any_post(SingleHandle, layout, post.storage)
    }

    proof fn lemma_allocate_keeps(&self, layout: NonEmptyLayout, post: Self, r: Result<NonEmptyMemoryBlock<usize>, AllocErr>) {
        let inner = choose|inner: Result<NonEmptyMemoryBlock<SingleHandle>, AllocErr>|
            self.storage.allocate_post(layout, post.storage, inner) && r == match inner {
                Ok(b) => Ok(NonEmptyMemoryBlock { handle: 0usize, size: b.size }),
                Err(e) => Err(e),
            };
        self.storage.lemma_allocate_keeps(layout, post.storage, inner);
    }

    proof fn lemma_in_bounds(&self, handle: usize, index: int) {
    }

    fn get(&self, handle: usize, index: usize) -> (r: Option<u8>) {
        if index > usize::MAX - handle {
            return None;
        }
        self.storage.get(SingleHandle, handle + index)
    }

    fn get_mut(&mut self, handle: usize, index: usize, value: u8) -> (r: bool) {
        if index > usize::MAX - handle {
            return false;
        }
        self.storage.get_mut(SingleHandle, handle + index, value)
    }

    fn allocate_nonempty(&mut self, layout: NonEmptyLayout) -> (r: Result<
        NonEmptyMemoryBlock<usize>,
        AllocErr,
    >) {
        let inner = self.storage.allocate_nonempty(layout);
        let r = match inner {
            Ok(b) => Ok(NonEmptyMemoryBlock { handle: 0, size: b.size }),
            Err(e) => Err(e),
        };
        proof {
            assert(old(self).storage.allocate_post(layout, self.storage, inner));
        }
        r
    }

    fn deallocate_nonempty(&mut self, handle: usize, layout: NonEmptyLayout) {
        self.storage.deallocate_nonempty(SingleHandle, layout)
    }

    fn allocate(&mut self, layout: Layout) -> (r: Result<MemoryBlock<usize>, AllocErr>) {
        let inner = self.storage.allocate(layout);
        let r = match inner {
            Ok(b) => Ok(MemoryBlock { handle: 0, size: b.size }),
            Err(e) => Err(e),
        };
        proof {
            assert(old(self).storage.allocate_any_post(layout, self.storage, inner));
        }
        r
    }

    fn deallocate(&mut self, handle: usize, layout: Layout) {
        self.storage.deallocate(SingleHandle, layout)
    }
}

impl<const SIZE: usize, const ALIGN: usize> OffsetHandle for OffsetSingleStackStorage<SIZE, ALIGN> {
    closed spec fn spec_offset(&self, handle: usize, offset: isize) -> usize {
        shifted(handle, offset)
    }

    closed spec fn offset_ok(&self, handle: usize, offset: isize) -> bool {
        0 <= handle + offset <= usize::MAX
    }

    proof fn lemma_offset(&self, handle: usize, offset: isize) {
        if offset > isize::MIN {
            lemma_shift_back(handle, offset);
        }
    }

    fn offset(&self, handle: usize, offset: isize) -> (r: usize) {
        shift(handle, offset)
    }

    fn checked_offset(&self, handle: usize, offset: isize) -> (r: Option<usize>) {
        handle.checked_add_signed(offset)
    }
}

/// What the single slot does: a free slot with room and alignment for the
/// layout is taken whole and the handle comes back with the slot's size;
/// otherwise the request fails and nothing changes. Giving the block back
/// frees the slot.
pub proof fn lemma_single_allocate<const SIZE: usize, const ALIGN: usize>(
    s: SingleStackStorage<SIZE, ALIGN>,
    layout: NonEmptyLayout,
    post: SingleStackStorage<SIZE, ALIGN>,
    r: Result<NonEmptyMemoryBlock<SingleHandle>, AllocErr>,
    handle: SingleHandle,
    freed: SingleStackStorage<SIZE, ALIGN>,
)
    ensures
        s.allocate_post(layout, post, r) ==> if !s.is_allocated() && slot_fits(SIZE, ALIGN, layout.spec_layout()) {
            &&& r == Ok::<NonEmptyMemoryBlock<SingleHandle>, AllocErr>(
                NonEmptyMemoryBlock { handle: SingleHandle, size: SIZE },
            )
            &&& post.is_allocated()
            &&& post.mem() == s.mem()
        } else {
            &&& r == Err::<NonEmptyMemoryBlock<SingleHandle>, AllocErr>(AllocErr(layout.spec_layout(), ()))
            &&& post == s
        },
        s.deallocate_post(handle, layout, freed) ==> !freed.is_allocated() && freed.mem() == s.mem(),
{
}

/// What the single slot does for a possibly empty layout: a free slot with
/// room and alignment for it hands out the whole slot, and is taken unless
/// the layout is empty; otherwise the request fails and nothing changes.
pub proof fn lemma_single_allocate_any<const SIZE: usize, const ALIGN: usize>(
    s: SingleStackStorage<SIZE, ALIGN>,
    layout: Layout,
    post: SingleStackStorage<SIZE, ALIGN>,
    r: Result<MemoryBlock<SingleHandle>, AllocErr>,
)
    requires
        s.allocate_any_post(layout, post, r),
    ensures
        if !s.is_allocated() && slot_fits(SIZE, ALIGN, layout) {
            &&& r == Ok::<MemoryBlock<SingleHandle>, AllocErr>(MemoryBlock { handle: SingleHandle, size: SIZE })
            &&& post.is_allocated() == (layout.spec_size() != 0)
            &&& post.mem() == s.mem()
        } else {
            &&& r == Err::<MemoryBlock<SingleHandle>, AllocErr>(AllocErr(layout, ()))
            &&& post == s
        },
{
}

} // verus!
