use crate::core_traits::{
    moved_post, Resize,
    block_readable, bytes_kept, bytes_zero, lemma_outside_run, lemma_same_addressing_trans, reachable,
    same_addressing, zero_range, AllocErr, MemoryBlock, NonEmptyMemoryBlock, OffsetHandle, ResizableStorage,
    Storage,
};
use crate::layout::{round_up, valid_layout, Layout, NonEmptyLayout};
use vstd::prelude::*;

verus! {

/// `layout` raised to at least `size` bytes and `align` alignment, with the
/// size rounded up to the alignment; `None` when that overflows.
pub open spec fn pad_spec(layout: Layout, size: usize, align: usize) -> Option<Layout> {
    let s = if layout.spec_size() >= size {
        layout.spec_size()
    } else {
        size
    };
    let a = if layout.spec_align() >= align {
        layout.spec_align()
    } else {
        align
    };
    if valid_layout(s as int, a as int) {
        Some(Layout::spec_new(round_up(s as int, a as int) as usize, a))
    } else {
        None
    }
}

/// Raises `layout` to at least `size` bytes and `align` alignment and rounds
/// its size up to the alignment.
pub fn pad_layout(layout: Layout, size: usize, align: usize) -> (r: Option<Layout>)
    ensures
        r == pad_spec(layout, size, align),
        r is Some ==> r->0.spec_size() >= layout.spec_size(),
{
    let s = if layout.size() >= size {
        layout.size()
    } else {
        size
    };
    let a = if layout.align() >= align {
        layout.align()
    } else {
        align
    };
    match Layout::from_size_align(s, a) {
        Some(l) => {
            let p = l.pad_to_align();
            proof {
                crate::layout::lemma_spec_new(s, a);
                crate::layout::lemma_spec_new(round_up(s as int, a as int) as usize, a);
                crate::layout::lemma_pow2_pos(a as int);
                crate::layout::lemma_round_up_ge(s as int, a as int);
            }
            Some(p)
        },
        None => None,
    }
}

/// A storage that raises every layout to at least `SIZE` bytes and `ALIGN`
/// alignment before passing it on, so that all blocks fall in one size class.
pub struct Pad<S, const SIZE: usize, const ALIGN: usize> {
    pub storage: S,
}

impl<S: Storage, const SIZE: usize, const ALIGN: usize> Pad<S, SIZE, ALIGN> {
    /// `storage` behind the padding.
    pub fn new(storage: S) -> (r: Self)
        ensures
            r.storage == storage,
    {
        Pad { storage }
    }

    /// The padded non-empty layout, if it can be computed.
    fn pad_ne(layout: NonEmptyLayout) -> (r: Option<NonEmptyLayout>)
        ensures
            match pad_spec(layout.spec_layout(), SIZE, ALIGN) {
                Some(p) => r == Some(NonEmptyLayout::spec_from(p)),
                None => r is None,
            },
            r is Some ==> r->0.spec_size() >= layout.spec_size(),
    {
        match pad_layout(layout.to_layout(), SIZE, ALIGN) {
            Some(p) => Some(NonEmptyLayout::new_unchecked(p)),
            None => None,
        }
    }
}

/// The padded layout of a non-empty layout, as a non-empty layout.
pub open spec fn pad_ne_spec(layout: NonEmptyLayout, size: usize, align: usize) -> Option<NonEmptyLayout> {
    match pad_spec(layout.spec_layout(), size, align) {
        Some(p) => Some(NonEmptyLayout::spec_from(p)),
        None => None,
    }
}

impl<S: Storage, const SIZE: usize, const ALIGN: usize> Storage for Pad<S, SIZE, ALIGN> {
    type Handle = S::Handle;

    open spec fn wf(&self) -> bool {
        self.storage.wf()
    }

    open spec fn mem(&self) -> Seq<u8> {
        self.storage.mem()
    }

    open spec fn addr(&self, handle: S::Handle) -> int {
        self.storage.addr(handle)
    }

    open spec fn in_bounds(&self, handle: S::Handle, index: int) -> bool {
        self.storage.in_bounds(handle, index)
    }

    open spec fn same_state(&self, other: Self) -> bool {
        self.storage.same_state(other.storage)
    }

    proof fn lemma_same_state_refl(&self) {
        self.storage.lemma_same_state_refl();
    }

    proof fn lemma_same_state_trans(&self, b: Self, c: Self) {
        self.storage.lemma_same_state_trans(b.storage, c.storage);
    }

    /// The padded layout is allocated from the inner storage; a layout whose
    /// padding overflows fails.
    open spec fn allocate_post(
        &self,
        layout: NonEmptyLayout,
        post: Self,
        r: Result<NonEmptyMemoryBlock<S::Handle>, AllocErr>,
    ) -> bool {
        match pad_ne_spec(layout, SIZE, ALIGN) {
            Some(p) => self.storage.allocate_post(p, post.storage, r),
            None => post == *self && r == Err::<NonEmptyMemoryBlock<S::Handle>, AllocErr>(
                AllocErr(layout.spec_layout(), ()),
            ),
        }
    }

    open spec fn deallocate_post(&self, handle: S::Handle, layout: NonEmptyLayout, post: Self) -> bool {
        match pad_ne_spec(layout, SIZE, ALIGN) {
            Some(p) => self.storage.deallocate_post(handle, p, post.storage),
            None => post == *self,
        }
    }

    open spec fn allocate_any_post(
        &self,
        layout: Layout,
        post: Self,
        r: Result<MemoryBlock<S::Handle>, AllocErr>,
    ) -> bool {
        match pad_spec(layout, SIZE, ALIGN) {
            Some(p) => self.storage.allocate_any_post(p, post.storage, r),
            None => post == *self && r == Err::<MemoryBlock<S::Handle>, AllocErr>(AllocErr(layout, ())),
        }
    }

    open spec fn deallocate_any_post(&self, handle: S::Handle, layout: Layout, post: Self) -> bool {
        match pad_spec(layout, SIZE, ALIGN) {
            Some(p) => self.storage.deallocate_any_post(handle, p, post.storage),
            None => post == *self,
        }
    }

    proof fn lemma_allocate_keeps(&self, layout: NonEmptyLayout, post: Self, r: Result<NonEmptyMemoryBlock<S::Handle>, AllocErr>) {
        match pad_ne_spec(layout, SIZE, ALIGN) {
            Some(p) => self.storage.lemma_allocate_keeps(p, post.storage, r),
            None => {},
        }
    }

    proof fn lemma_in_bounds(&self, handle: S::Handle, index: int) {
        self.storage.lemma_in_bounds(handle, index);
    }

    fn get(&self, handle: S::Handle, index: usize) -> (r: Option<u8>) {
        self.storage.get(handle, index)
    }

    fn get_mut(&mut self, handle: S::Handle, index: usize, value: u8) -> (r: bool) {
        self.storage.get_mut(handle, index, value)
    }

    fn allocate_nonempty(&mut self, layout: NonEmptyLayout) -> (r: Result<
        NonEmptyMemoryBlock<S::Handle>,
        AllocErr,
    >) {
        match Self::pad_ne(layout) {
            Some(p) => self.storage.allocate_nonempty(p),
            None => Err(AllocErr::new(layout.to_layout())),
        }
    }

    fn deallocate_nonempty(&mut self, handle: S::Handle, layout: NonEmptyLayout) {
        match Self::pad_ne(layout) {
            Some(p) => self.storage.deallocate_nonempty(handle, p),
            None => {},
        }
    }

    fn allocate(&mut self, layout: Layout) -> (r: Result<MemoryBlock<S::Handle>, AllocErr>) {
        match pad_layout(layout, SIZE, ALIGN) {
            Some(p) => self.storage.allocate(p),
            None => Err(AllocErr::new(layout)),
        }
    }

    fn deallocate(&mut self, handle: S::Handle, layout: Layout) {
        match pad_layout(layout, SIZE, ALIGN) {
            Some(p) => self.storage.deallocate(handle, p),
            None => {},
        }
    }
}

impl<S: ResizableStorage, const SIZE: usize, const ALIGN: usize> Pad<S, SIZE, ALIGN> {
    /// Grows through the padded layouts. When both pad to the same layout the
    /// block already fits and stays where it is, provided its bytes are all
    /// readable; with `zeroed`, the bytes past the old size are zeroed.
    fn grow_padded(&mut self, handle: S::Handle, old_layout: Layout, new_layout: Layout, zeroed: bool) -> (r: Result<
        MemoryBlock<S::Handle>,
        AllocErr,
    >)
        requires
            old(self).wf(),
            old_layout.spec_size() <= new_layout.spec_size(),
            old_layout != new_layout,
        ensures
            final(self).wf(),
            old(self).resize_post(
                handle,
                old_layout,
                new_layout,
                if zeroed {
                    Resize::GrowZeroed
                } else {
                    Resize::Grow
                },
                *final(self),
                r,
            ),
            r is Ok ==> r->Ok_0.size >= new_layout.spec_size(),
            r is Ok ==> block_readable(final(self).storage, r->Ok_0.handle, r->Ok_0.size as int),
            r is Ok ==> bytes_kept(*old(self), handle, *final(self), r->Ok_0.handle, old_layout.spec_size() as int),
            r is Ok && zeroed ==> bytes_zero(
                *final(self),
                r->Ok_0.handle,
                old_layout.spec_size() as int,
                new_layout.spec_size() as int,
            ),
            same_addressing(old(self).storage, final(self).storage),
            r is Err ==> final(self).storage.mem() == old(self).storage.mem(),
    {
        let (o, n) = match (pad_layout(old_layout, SIZE, ALIGN), pad_layout(new_layout, SIZE, ALIGN)) {
            (Some(o), Some(n)) => (o, n),
            _ => return Err(AllocErr::new(new_layout)),
        };
        let old_size = old_layout.size();
        let padded_old = o.size();
        if padded_old > n.size() {
            return Err(AllocErr::new(new_layout));
        }
        if o == n {
            if !reachable(&self.storage, handle, padded_old) {
                return Err(AllocErr::new(new_layout));
            }
            let ghost mid = self.storage;
            proof {
                mid.lemma_same_state_refl();
            }
            if zeroed {
                zero_range(&mut self.storage, handle, old_size, padded_old);
            }
            proof {
                if !zeroed {
                    assert(self.storage == mid);
                }
                assert forall|i: int|
                    0 <= i < old_size && #[trigger] old(self).in_bounds(handle, i) && self.in_bounds(handle, i)
                    implies self.mem()[self.addr(handle) + i] == old(self).mem()[old(self).addr(handle) + i] by {
                    if zeroed {
                        lemma_outside_run(mid, self.storage, handle, old_size as int, padded_old as int, i);
                    }
                }
                assert forall|i: int| 0 <= i < padded_old implies #[trigger] self.storage.in_bounds(handle, i) by {
                    assert(mid.in_bounds(handle, i));
                }
            }
            return Ok(MemoryBlock { handle, size: padded_old });
        }
        let inner = if zeroed {
            self.storage.grow_zeroed(handle, o, n)
        } else {
            self.storage.grow(handle, o, n)
        };
        let ghost after = self.storage;
        let ghost kind = if zeroed {
            Resize::GrowZeroed
        } else {
            Resize::Grow
        };
        let b = match inner {
            Ok(b) => b,
            Err(e) => {
                proof {
                    assert(old(self).storage.resize_post(handle, o, n, kind, after, inner) && self.storage == after);
                }
                return Err(e);
            },
        };
        let ghost mid = self.storage;
        if zeroed {
            zero_range(&mut self.storage, b.handle, old_size, padded_old);
        }
        proof {
            if !zeroed {
                assert(self.storage == mid);
            } else {
                lemma_same_addressing_trans(old(self).storage, mid, self.storage);
            }
            assert forall|i: int|
                0 <= i < old_size && #[trigger] old(self).in_bounds(handle, i) && self.in_bounds(b.handle, i)
                implies self.mem()[self.addr(b.handle) + i] == old(self).mem()[old(self).addr(handle) + i] by {
                assert(mid.in_bounds(b.handle, i));
                if zeroed {
                    lemma_outside_run(mid, self.storage, b.handle, old_size as int, padded_old as int, i);
                }
            }
            assert forall|i: int| 0 <= i < b.size implies #[trigger] self.storage.in_bounds(b.handle, i) by {
                assert(mid.in_bounds(b.handle, i));
            }
            if !zeroed {
                assert(old(self).storage.resize_post(handle, o, n, kind, mid, inner) && self.storage == mid);
            } else {
                assert(old(self).storage.resize_post(handle, o, n, kind, mid, inner) && mid.same_state(self.storage));
            }
            if zeroed {
                assert forall|i: int|
                    old_size <= i < new_layout.spec_size() && #[trigger] self.in_bounds(b.handle, i)
                    implies self.mem()[self.addr(b.handle) + i] == 0 by {
                    if i >= padded_old {
                        assert(mid.in_bounds(b.handle, i));
                        assert(mid.mem()[mid.addr(b.handle) + i] == 0);
                        lemma_outside_run(mid, self.storage, b.handle, old_size as int, padded_old as int, i);
                    }
                }
            }
        }
        Ok(b)
    }
}

impl<S: ResizableStorage, const SIZE: usize, const ALIGN: usize> ResizableStorage for Pad<S, SIZE, ALIGN> {
    /// The padded layouts are resized in the inner storage. When both pad to
    /// the same layout, the block stays where it is, provided all its bytes
    /// are readable; a grow that would shrink the padded block, a shrink
    /// that would grow it, or a layout whose padding overflows, fails.
    open spec fn resize_post(
        &self,
        handle: S::Handle,
        old_layout: Layout,
        new_layout: Layout,
        kind: Resize,
        post: Self,
        r: Result<MemoryBlock<S::Handle>, AllocErr>,
    ) -> bool {
        if old_layout == new_layout {
            r == Ok::<MemoryBlock<S::Handle>, AllocErr>(MemoryBlock { handle, size: old_layout.spec_size() })
                && post == *self
        } else {
            match (pad_spec(old_layout, SIZE, ALIGN), pad_spec(new_layout, SIZE, ALIGN)) {
                (Some(o), Some(n)) => if (kind == Resize::Shrink && n.spec_size() > o.spec_size()) || (kind
                    != Resize::Shrink && o.spec_size() > n.spec_size()) {
                    r == Err::<MemoryBlock<S::Handle>, AllocErr>(AllocErr(new_layout, ())) && post == *self
                } else if o == n {
                    &&& (r is Ok <==> block_readable(self.storage, handle, o.spec_size() as int))
                    &&& r is Ok ==> r == Ok::<MemoryBlock<S::Handle>, AllocErr>(
                        MemoryBlock { handle, size: o.spec_size() },
                    ) && self.storage.same_state(post.storage)
                    &&& r is Ok && kind != Resize::GrowZeroed ==> post == *self
                    &&& r is Err ==> r == Err::<MemoryBlock<S::Handle>, AllocErr>(AllocErr(new_layout, ()))
                        && post == *self
                } else {
                    exists|mid: S|
                        #[trigger] self.storage.resize_post(handle, o, n, kind, mid, r) && (if kind
                            == Resize::GrowZeroed && r is Ok {
                            mid.same_state(post.storage)
                        } else {
                            post.storage == mid
                        })
                },
                _ => r == Err::<MemoryBlock<S::Handle>, AllocErr>(AllocErr(new_layout, ())) && post == *self,
            }
        }
    }

    fn grow(&mut self, handle: S::Handle, old_layout: Layout, new_layout: Layout) -> (r: Result<
        MemoryBlock<S::Handle>,
        AllocErr,
    >) {
        if old_layout == new_layout {
            return Ok(MemoryBlock { handle, size: old_layout.size() });
        }
        self.grow_padded(handle, old_layout, new_layout, false)
    }

    fn grow_zeroed(&mut self, handle: S::Handle, old_layout: Layout, new_layout: Layout) -> (r: Result<
        MemoryBlock<S::Handle>,
        AllocErr,
    >) {
        if old_layout == new_layout {
            return Ok(MemoryBlock { handle, size: old_layout.size() });
        }
        self.grow_padded(handle, old_layout, new_layout, true)
    }

    fn shrink(&mut self, handle: S::Handle, old_layout: Layout, new_layout: Layout) -> (r: Result<
        MemoryBlock<S::Handle>,
        AllocErr,
    >) {
        if old_layout == new_layout {
            return Ok(MemoryBlock { handle, size: old_layout.size() });
        }
        let (o, n) = match (pad_layout(old_layout, SIZE, ALIGN), pad_layout(new_layout, SIZE, ALIGN)) {
            (Some(o), Some(n)) => (o, n),
            _ => return Err(AllocErr::new(new_layout)),
        };
        if n.size() > o.size() {
            return Err(AllocErr::new(new_layout));
        }
        if o == n {
            let size = o.size();
            if !reachable(&self.storage, handle, size) {
                return Err(AllocErr::new(new_layout));
            }
            proof {
                self.storage.lemma_same_state_refl();
            }
            return Ok(MemoryBlock { handle, size });
        }
        let r = self.storage.shrink(handle, o, n);
        proof {
            assert(old(self).storage.resize_post(handle, o, n, Resize::Shrink, self.storage, r) && self.storage
                == self.storage);
        }
        r
    }
}

impl<S: OffsetHandle, const SIZE: usize, const ALIGN: usize> OffsetHandle for Pad<S, SIZE, ALIGN> {
    open spec fn spec_offset(&self, handle: S::Handle, offset: isize) -> S::Handle {
        self.storage.spec_offset(handle, offset)
    }

    open spec fn offset_ok(&self, handle: S::Handle, offset: isize) -> bool {
        self.storage.offset_ok(handle, offset)
    }

    proof fn lemma_offset(&self, handle: S::Handle, offset: isize) {
        self.storage.lemma_offset(handle, offset);
    }

    fn offset(&self, handle: S::Handle, offset: isize) -> (r: S::Handle) {
        self.storage.offset(handle, offset)
    }

    fn checked_offset(&self, handle: S::Handle, offset: isize) -> (r: Option<S::Handle>) {
        self.storage.checked_offset(handle, offset)
    }
}

} // verus!
