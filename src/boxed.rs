use crate::core_traits::{
    block_readable,    allocate_zeroed, bytes_kept, bytes_zero, write_bytes, AllocErr, MemoryBlock, ResizableStorage, Storage,
};
use crate::layout::{valid_layout, Layout};
use vstd::prelude::*;

verus! {

/// A block of bytes owned together with the storage it came from.
pub struct Box<S: Storage> {
    handle: S::Handle,
    storage: S,
    size: usize,
    align: usize,
}

impl<S: Storage> Box<S> {
    /// The handle of the block.
    pub closed spec fn spec_handle(&self) -> S::Handle {
        self.handle
    }

    /// The storage that owns the block.
    pub closed spec fn inner(&self) -> S {
        self.storage
    }

    /// The size of the block in bytes.
    pub closed spec fn spec_len(&self) -> usize {
        self.size
    }

    /// The alignment of the block.
    pub closed spec fn spec_align(&self) -> usize {
        self.align
    }

    /// The box is usable: its storage is well formed, its layout valid, and
    /// every byte of the block readable.
    pub closed spec fn wf(&self) -> bool {
        &&& self.storage.wf()
        &&& valid_layout(self.size as int, self.align as int)
        &&& block_readable(self.storage, self.handle, self.size as int)
    }

    /// A usable box has a valid layout.
    pub proof fn lemma_wf(&self)
        requires
            self.wf(),
        ensures
            valid_layout(self.spec_len() as int, self.spec_align() as int),
            self.inner().wf(),
            block_readable(self.inner(), self.spec_handle(), self.spec_len() as int),
    {
    }

    /// The `i`-th byte of the box, as the storage holds it.
    pub open spec fn byte(&self, i: int) -> u8 {
        self.inner().mem()[self.inner().addr(self.spec_handle()) + i]
    }

    /// A box of `layout` with unspecified contents; fails as `storage` does.
    pub fn try_uninit_in(layout: Layout, storage: S) -> (r: Result<Self, AllocErr>)
        requires
            storage.wf(),
        ensures
            match r {
                Ok(bx) => bx.wf() && bx.spec_len() == layout.spec_size() && bx.spec_align() == layout.spec_align()
                    && exists|b: MemoryBlock<S::Handle>|
                    storage.allocate_any_post(layout, bx.inner(), Ok::<MemoryBlock<S::Handle>, AllocErr>(b))
                        && bx.spec_handle() == b.handle,
                Err(e) => exists|post: S|
                    storage.allocate_any_post(layout, post, Err::<MemoryBlock<S::Handle>, AllocErr>(e)),
            },
    {
        let mut inner = storage;
        let size = layout.size();
        let align = layout.align();
        let res = inner.allocate(layout);
        match res {
            Ok(b) => {
                let bx = Box { handle: b.handle, storage: inner, size, align };
                let out: Result<Self, AllocErr> = Ok(bx);
                proof {
                    assert(out->Ok_0 == bx);
                    assert(storage.allocate_any_post(layout, bx.inner(), Ok::<MemoryBlock<S::Handle>, AllocErr>(b))
                        && bx.spec_handle() == b.handle);
                }
                out
            },
            Err(e) => {
                let out: Result<Self, AllocErr> = Err(e);
                proof {
                    assert(out->Err_0 == e);
                }
                out
            },
        }
    }

    /// A box of `layout` filled with zeros; fails as `storage` does.
    pub fn try_zeroed_in(layout: Layout, storage: S) -> (r: Result<Self, AllocErr>)
        requires
            storage.wf(),
        ensures
            match r {
                Ok(bx) => bx.wf() && bx.spec_len() == layout.spec_size() && bx.spec_align() == layout.spec_align()
                    && bytes_zero(bx.inner(), bx.spec_handle(), 0, layout.spec_size() as int) && (forall|i: int|
                    0 <= i < layout.spec_size() ==> #[trigger] bx.byte(i) == 0) && exists|mid: S, b: MemoryBlock<S::Handle>|
                    #[trigger] storage.allocate_any_post(layout, mid, Ok::<MemoryBlock<S::Handle>, AllocErr>(b))
                        && mid.same_state(bx.inner()) && bx.spec_handle() == b.handle,
                Err(e) => exists|post: S|
                    storage.allocate_any_post(layout, post, Err::<MemoryBlock<S::Handle>, AllocErr>(e)),
            },
    {
        let mut inner = storage;
        let size = layout.size();
        let align = layout.align();
        let res = allocate_zeroed(&mut inner, layout);
        match res {
            Ok(b) => {
                let bx = Box { handle: b.handle, storage: inner, size, align };
                let out: Result<Self, AllocErr> = Ok(bx);
                proof {
                    assert(out->Ok_0 == bx);
                    assert forall|k: int| 0 <= k < size implies #[trigger] bx.byte(k) == 0 by {
                        assert(bx.storage.in_bounds(bx.handle, k));
                    }
                    let mid = choose|mid: S|
                        #[trigger] storage.allocate_any_post(layout, mid, res) && mid.same_state(inner);
                    assert(storage.allocate_any_post(layout, mid, Ok::<MemoryBlock<S::Handle>, AllocErr>(b))
                        && mid.same_state(bx.inner()) && bx.spec_handle() == b.handle);
                }
                out
            },
            Err(e) => {
                let out: Result<Self, AllocErr> = Err(e);
                proof {
                    assert(out->Err_0 == e);
                }
                out
            },
        }
    }

    /// A box holding `value`, aligned to `align`; fails as `storage` does.
    pub fn try_new_in(value: &[u8], align: usize, storage: S) -> (r: Result<Self, AllocErr>)
        requires
            storage.wf(),
            valid_layout(value@.len() as int, align as int),
        ensures
            match r {
                Ok(bx) => bx.wf() && bx.spec_len() == value@.len() && bx.spec_align() == align && (forall|i: int|
                    0 <= i < value@.len() ==> #[trigger] bx.byte(i) == value@[i]) && exists|
                    mid: S,
                    b: MemoryBlock<S::Handle>,
                |
                    #[trigger] storage.allocate_any_post(
                        Layout::spec_new(value@.len() as usize, align),
                        mid,
                        Ok::<MemoryBlock<S::Handle>, AllocErr>(b),
                    ) && mid.same_state(bx.inner()) && bx.spec_handle() == b.handle,
                Err(e) => exists|post: S|
                    #[trigger] storage.allocate_any_post(
                        Layout::spec_new(value@.len() as usize, align),
                        post,
                        Err::<MemoryBlock<S::Handle>, AllocErr>(e),
                    ),
            },
    {
        let layout = match Layout::from_size_align(value.len(), align) {
            Some(l) => l,
            None => unreached(),
        };
        match Self::try_uninit_in(layout, storage) {
            Ok(bx) => {
                let mut bx = bx;
                let handle = bx.handle;
                let ghost before = bx;
                write_bytes(&mut bx.storage, handle, value);
                proof {
                    assert(bx.storage.wf());
                    assert(bx.size == before.size && bx.align == before.align);
                    assert(bx.wf());
                    assert forall|i: int|
                        0 <= i < value@.len() implies #[trigger] bx.byte(i) == value@[i] by {
                        assert(bx.storage.in_bounds(handle, i));
                    }
                    let b = choose|b: MemoryBlock<S::Handle>|
                        storage.allocate_any_post(layout, before.inner(), Ok::<MemoryBlock<S::Handle>, AllocErr>(b))
                            && before.spec_handle() == b.handle;
                    assert(layout == Layout::spec_new(value@.len() as usize, align));
                    assert(storage.allocate_any_post(
                        Layout::spec_new(value@.len() as usize, align),
                        before.inner(),
                        Ok::<MemoryBlock<S::Handle>, AllocErr>(b),
                    ) && before.inner().same_state(bx.inner()) && bx.spec_handle() == b.handle);
                }
                let out: Result<Self, AllocErr> = Ok(bx);
                proof {
                    assert(out->Ok_0 == bx);
                }
                out
            },
            Err(e) => {
                let out: Result<Self, AllocErr> = Err(e);
                proof {
                    assert(out->Err_0 == e);
                    let post = choose|post: S|
                        storage.allocate_any_post(layout, post, Err::<MemoryBlock<S::Handle>, AllocErr>(e));
                    assert(layout == Layout::spec_new(value@.len() as usize, align));
                    assert(storage.allocate_any_post(
                        Layout::spec_new(value@.len() as usize, align),
                        post,
                        Err::<MemoryBlock<S::Handle>, AllocErr>(e),
                    ));
                }
                out
            },
        }
    }

    /// A box holding `value`, for a storage known to grant the block.
    pub fn new_in(value: &[u8], align: usize, storage: S) -> (r: Self)
        requires
            storage.wf(),
            valid_layout(value@.len() as int, align as int),
            forall|post: S, res: Result<MemoryBlock<S::Handle>, AllocErr>|
                #[trigger] storage.allocate_any_post(Layout::spec_new(value@.len() as usize, align), post, res)
                    ==> res is Ok,
        ensures
            r.wf(),
            r.spec_len() == value@.len(),
            forall|i: int|
                0 <= i < value@.len() ==> #[trigger] r.byte(i) == value@[i],
    {
        match Self::try_new_in(value, align, storage) {
            Ok(bx) => bx,
            Err(e) => unreached(),
        }
    }

    /// A box of at least `len` bytes with unspecified contents: it holds the
    /// whole block the storage gives. On failure the storage comes back with
    /// the error.
    pub fn try_uninit_slice_in(len: usize, storage: S) -> (r: Result<Self, AllocErr<S>>)
        requires
            storage.wf(),
            len <= isize::MAX,
        ensures
            match r {
                Ok(bx) => bx.wf() && bx.spec_len() >= len && bx.spec_align() == 1 && exists|b: MemoryBlock<S::Handle>|
                    #[trigger] storage.allocate_any_post(
                        Layout::spec_new(len, 1),
                        bx.inner(),
                        Ok::<MemoryBlock<S::Handle>, AllocErr>(b),
                    ) && bx.spec_handle() == b.handle && bx.spec_len() == (if b.size <= isize::MAX {
                        b.size
                    } else {
                        len
                    }),
                Err(e) => e.1.wf() && exists|ie: AllocErr|
                    ie.0 == e.0 && #[trigger] storage.allocate_any_post(
                        Layout::spec_new(len, 1),
                        e.1,
                        Err::<MemoryBlock<S::Handle>, AllocErr>(ie),
                    ),
            },
    {
        let layout = match Layout::from_size_align(len, 1) {
            Some(l) => l,
            None => {
                proof {
                    reveal_with_fuel(crate::layout::is_pow2, 2);
                    assert(crate::layout::padding_for(len as int, 1) == 0);
                }
                unreached()
            },
        };
        let mut inner = storage;
        let res = inner.allocate(layout);
        match res {
            Ok(b) => {
                // the whole block the storage gave, as far as a layout can describe it
                let size = if b.size <= isize::MAX as usize {
                    b.size
                } else {
                    len
                };
                let bx = Box { handle: b.handle, storage: inner, size, align: 1 };
                let out: Result<Self, AllocErr<S>> = Ok(bx);
                proof {
                    assert(out->Ok_0 == bx);
                    assert(layout == Layout::spec_new(len, 1));
                    assert(storage.allocate_any_post(
                        Layout::spec_new(len, 1),
                        bx.inner(),
                        Ok::<MemoryBlock<S::Handle>, AllocErr>(b),
                    ) && bx.spec_handle() == b.handle);
                    reveal_with_fuel(crate::layout::is_pow2, 2);
                    assert(crate::layout::padding_for(size as int, 1) == 0);
                    assert(valid_layout(size as int, 1));
                    assert forall|i: int| 0 <= i < size implies #[trigger] inner.in_bounds(b.handle, i) by {
                        assert(inner.in_bounds(b.handle, i));
                    }
                    assert(exists|c: MemoryBlock<S::Handle>|
                        #[trigger] storage.allocate_any_post(
                            Layout::spec_new(len, 1),
                            bx.inner(),
                            Ok::<MemoryBlock<S::Handle>, AllocErr>(c),
                        ) && bx.spec_handle() == c.handle && bx.spec_len() == (if c.size <= isize::MAX {
                            c.size
                        } else {
                            len
                        }));
                }
                out
            },
            Err(e) => {
                proof {
                    assert(layout == Layout::spec_new(len, 1));
                    assert(storage.allocate_any_post(
                        Layout::spec_new(len, 1),
                        inner,
                        Err::<MemoryBlock<S::Handle>, AllocErr>(e),
                    ));
                }
                let out: Result<Self, AllocErr<S>> = Err(e.with(inner));
                proof {
                    assert(out->Err_0.0 == e.0 && out->Err_0.1 == inner);
                }
                out
            },
        }
    }

    /// The size of the block in bytes.
    pub fn len(&self) -> (r: usize)
        ensures
            r == self.spec_len(),
    {
        self.size
    }

    /// The `index`-th byte; `None` when the storage cannot reach it.
    pub fn read(&self, index: usize) -> (r: Option<u8>)
        requires
            self.wf(),
        ensures
            r == (if self.inner().in_bounds(self.spec_handle(), index as int) {
                Some(self.byte(index as int))
            } else {
                None
            }),
            index < self.spec_len() ==> r == Some(self.byte(index as int)),
    {
        self.storage.get(self.handle, index)
    }

    /// Writes the `index`-th byte; `false` when the storage cannot reach it.
    pub fn write(&mut self, index: usize, value: u8) -> (r: bool)
        requires
            old(self).wf(),
        ensures
            final(self).wf(),
            final(self).spec_handle() == old(self).spec_handle(),
            final(self).spec_len() == old(self).spec_len(),
            final(self).spec_align() == old(self).spec_align(),
            r == old(self).inner().in_bounds(old(self).spec_handle(), index as int),
            index < old(self).spec_len() ==> r,
            r ==> final(self).byte(index as int) == value,
            forall|i: int|
                0 <= i < old(self).spec_len() && i != index ==> #[trigger] final(self).byte(i) == old(self).byte(i),
    {
        let r = self.storage.get_mut(self.handle, index, value);
        proof {
            if r {
                old(self).storage.lemma_in_bounds(old(self).handle, index as int);
            }
            assert forall|i: int| 0 <= i < old(self).spec_len() && i != index implies #[trigger] self.byte(i)
                == old(self).byte(i) by {
                assert(old(self).storage.in_bounds(old(self).handle, i));
                old(self).storage.lemma_in_bounds(old(self).handle, i);
            }
        }
        r
    }

    /// The handle, the layout and the storage, taken apart.
    pub fn into_raw_parts(self) -> (r: (S::Handle, Layout, S))
        requires
            self.wf(),
        ensures
            r.0 == self.spec_handle(),
            r.1 == Layout::spec_new(self.spec_len(), self.spec_align()),
            r.2 == self.inner(),
    {
        let layout = match Layout::from_size_align(self.size, self.align) {
            Some(l) => l,
            None => unreached(),
        };
        (self.handle, layout, self.storage)
    }
}

impl<S: ResizableStorage> Box<S> {
    /// Grows the block to `new_size` bytes, keeping its contents; on failure
    /// the box still holds its block.
    pub fn try_grow(&mut self, new_size: usize) -> (r: Result<(), AllocErr>)
        requires
            old(self).wf(),
            old(self).spec_len() <= new_size,
            valid_layout(new_size as int, old(self).spec_align() as int),
        ensures
            final(self).wf(),
            final(self).spec_align() == old(self).spec_align(),
            r is Ok ==> final(self).spec_len() == new_size && bytes_kept(
                old(self).inner(),
                old(self).spec_handle(),
                final(self).inner(),
                final(self).spec_handle(),
                old(self).spec_len() as int,
            ),
            r is Err ==> final(self).spec_handle() == old(self).spec_handle() && final(self).spec_len()
                == old(self).spec_len(),
    {
        let old_layout = match Layout::from_size_align(self.size, self.align) {
            Some(l) => l,
            None => unreached(),
        };
        let new_layout = match Layout::from_size_align(new_size, self.align) {
            Some(l) => l,
            None => unreached(),
        };
        match self.storage.grow(self.handle, old_layout, new_layout) {
            Ok(b) => {
                self.handle = b.handle;
                self.size = new_size;
                Ok(())
            },
            Err(e) => Err(e),
        }
    }

    /// Shrinks the block to `new_size` bytes, keeping its first `new_size`
    /// bytes; on failure the box still holds its block.
    pub fn try_shrink(&mut self, new_size: usize) -> (r: Result<(), AllocErr>)
        requires
            old(self).wf(),
            new_size <= old(self).spec_len(),
        ensures
            final(self).wf(),
            final(self).spec_align() == old(self).spec_align(),
            r is Ok ==> final(self).spec_len() == new_size && bytes_kept(
                old(self).inner(),
                old(self).spec_handle(),
                final(self).inner(),
                final(self).spec_handle(),
                new_size as int,
            ),
            r is Err ==> final(self).spec_handle() == old(self).spec_handle() && final(self).spec_len()
                == old(self).spec_len(),
    {
        let old_layout = match Layout::from_size_align(self.size, self.align) {
            Some(l) => l,
            None => unreached(),
        };
        let new_layout = match Layout::from_size_align(new_size, self.align) {
            Some(l) => l,
            None => {
                proof {
                    crate::layout::lemma_round_up_mono(new_size as int, old_layout.spec_size() as int, self.align as int);
                }
                unreached()
            },
        };
        match self.storage.shrink(self.handle, old_layout, new_layout) {
            Ok(b) => {
                self.handle = b.handle;
                self.size = new_size;
                Ok(())
            },
            Err(e) => Err(e),
        }
    }
}

} // verus!
