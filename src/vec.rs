use crate::boxed::Box;
use crate::core_traits::{bytes_kept, AllocErr, MemoryBlock, ResizableStorage, Storage};
use crate::layout::{valid_layout, Layout};
use vstd::prelude::*;

verus! {

/// A growable run of bytes kept in a storage: the first `len()` bytes of a
/// block of `capacity()` bytes.
pub struct Vec<S: Storage> {
    len: usize,
    raw: Box<S>,
}

impl<S: Storage> Vec<S> {
    /// The number of bytes in use.
    pub closed spec fn spec_len(&self) -> usize {
        self.len
    }

    /// The block holding the bytes.
    pub closed spec fn raw(&self) -> Box<S> {
        self.raw
    }

    /// The number of bytes the block holds.
    pub open spec fn spec_capacity(&self) -> usize {
        self.raw().spec_len()
    }

    /// The block is usable and holds every byte in use.
    pub open spec fn wf(&self) -> bool {
        self.raw().wf() && self.spec_len() <= self.spec_capacity() && self.raw().spec_align() == 1
    }

    /// A vector with room for `capacity` bytes; fails as `storage` does.
    pub fn try_with_capacity_in(capacity: usize, storage: S) -> (r: Result<Self, AllocErr>)
        requires
            storage.wf(),
            capacity <= isize::MAX,
        ensures
            match r {
                Ok(v) => v.wf() && v.spec_len() == 0 && v.spec_capacity() >= capacity,
                Err(e) => exists|post: S, ie: AllocErr|
                    ie.0 == e.0 && #[trigger] storage.allocate_any_post(
                        Layout::spec_new(capacity, 1),
                        post,
                        Err::<MemoryBlock<S::Handle>, AllocErr>(ie),
                    ),
            },
    {
        match Box::try_uninit_slice_in(capacity, storage) {
            Ok(raw) => {
                let v = Vec { len: 0, raw };
                let out: Result<Self, AllocErr> = Ok(v);
                proof {
                    assert(out->Ok_0 == v);
                }
                out
            },
            Err(e) => {
                let out: Result<Self, AllocErr> = Err(AllocErr::new(e.0));
                proof {
                    let ie = choose|ie: AllocErr|
                        ie.0 == e.0 && #[trigger] storage.allocate_any_post(
                            Layout::spec_new(capacity, 1),
                            e.1,
                            Err::<MemoryBlock<S::Handle>, AllocErr>(ie),
                        );
                    assert(ie.0 == out->Err_0.0 && storage.allocate_any_post(
                        Layout::spec_new(capacity, 1),
                        e.1,
                        Err::<MemoryBlock<S::Handle>, AllocErr>(ie),
                    ));
                }
                out
            },
        }
    }

    /// As `try_with_capacity_in`, for a storage known to grant the block.
    pub fn with_capacity_in(capacity: usize, storage: S) -> (r: Self)
        requires
            storage.wf(),
            capacity <= isize::MAX,
            forall|post: S, res: Result<MemoryBlock<S::Handle>, AllocErr>|
                #[trigger] storage.allocate_any_post(Layout::spec_new(capacity, 1), post, res) ==> res is Ok,
        ensures
            r.wf(),
            r.spec_len() == 0,
            r.spec_capacity() >= capacity,
    {
        match Self::try_with_capacity_in(capacity, storage) {
            Ok(v) => v,
            Err(e) => unreached(),
        }
    }

    /// An empty vector with whatever room the storage gives for an empty
    /// block, for a storage that grants one.
    pub fn new_in(storage: S) -> (r: Self)
        requires
            storage.wf(),
            forall|post: S, res: Result<MemoryBlock<S::Handle>, AllocErr>|
                #[trigger] storage.allocate_any_post(Layout::spec_new(0, 1), post, res) ==> res is Ok,
        ensures
            r.wf(),
            r.spec_len() == 0,
    {
        Self::with_capacity_in(0, storage)
    }

    /// Whether no byte is in use.
    pub fn is_empty(&self) -> (r: bool)
        ensures
            r == (self.spec_len() == 0),
    {
        self.len == 0
    }

    /// The number of bytes in use.
    pub fn len(&self) -> (r: usize)
        ensures
            r == self.spec_len(),
    {
        self.len
    }

    /// The number of bytes the block holds.
    pub fn capacity(&self) -> (r: usize)
        ensures
            r == self.spec_capacity(),
    {
        self.raw.len()
    }

    /// Appends `value` when there is room; gives it back otherwise, with
    /// nothing changed.
    pub fn try_push(&mut self, value: u8) -> (r: Result<(), u8>)
        requires
            old(self).wf(),
        ensures
            final(self).wf(),
            r is Ok <==> old(self).spec_len() < old(self).spec_capacity(),
            r is Ok ==> final(self).spec_len() == old(self).spec_len() + 1 && final(self).spec_capacity()
                == old(self).spec_capacity() && final(self).raw().byte(old(self).spec_len() as int) == value
                && forall|i: int| 0 <= i < old(self).spec_len() ==> #[trigger] final(self).raw().byte(i) == old(self).raw().byte(i),
            r is Err ==> r->Err_0 == value && *final(self) == *old(self),
    {
        if self.len < self.raw.len() {
            let ghost before = self.raw;
            self.raw.write(self.len, value);
            proof {
                assert forall|i: int| 0 <= i < old(self).spec_len() implies #[trigger] self.raw.byte(i) == before.byte(i) by {
                    assert(i != old(self).spec_len());
                }
            }
            self.len = self.len + 1;
            Ok(())
        } else {
            Err(value)
        }
    }

    /// The last byte in use, taken off; `None` when empty.
    pub fn try_pop(&mut self) -> (r: Option<u8>)
        requires
            old(self).wf(),
        ensures
            final(self).wf(),
            old(self).spec_len() == 0 ==> r is None && *final(self) == *old(self),
            old(self).spec_len() > 0 ==> final(self).spec_len() == old(self).spec_len() - 1 && r == Some(
                old(self).raw().byte(old(self).spec_len() - 1),
            ) && final(self).raw() == old(self).raw(),
    {
        if self.len == 0 {
            None
        } else {
            self.len = self.len - 1;
            self.raw.read(self.len)
        }
    }
}

impl<S: ResizableStorage> Vec<S> {
    /// Grows the block to room for `additional` more bytes than are in use,
    /// at least doubling it, keeping the bytes in use.
    pub fn try_reserve_slow(&mut self, additional: usize) -> (r: Result<(), AllocErr>)
        requires
            old(self).wf(),
            old(self).spec_len() + additional <= isize::MAX,
        ensures
            final(self).wf(),
            final(self).spec_len() == old(self).spec_len(),
            r is Ok ==> final(self).spec_capacity() >= old(self).spec_len() + additional && bytes_kept(
                old(self).raw().inner(),
                old(self).raw().spec_handle(),
                final(self).raw().inner(),
                final(self).raw().spec_handle(),
                old(self).spec_capacity() as int,
            ),
            r is Err ==> final(self).raw().spec_handle() == old(self).raw().spec_handle()
                && final(self).spec_capacity() == old(self).spec_capacity(),
    {
        let needed = self.len + additional;
        let capacity = self.raw.len();
        let doubled = if capacity <= (isize::MAX as usize) / 2 {
            capacity * 2
        } else {
            isize::MAX as usize
        };
        let target = if needed > doubled {
            needed
        } else {
            doubled
        };
        proof {
            self.raw.lemma_wf();
            reveal_with_fuel(crate::layout::is_pow2, 2);
            assert(crate::layout::padding_for(target as int, 1) == 0);
            assert(crate::layout::padding_for(capacity as int, 1) == 0);
        }
        self.raw.try_grow(target)
    }

    /// Makes room for `additional` more bytes than are in use, growing the
    /// block when it is too small.
    pub fn try_reserve(&mut self, additional: usize) -> (r: Result<(), AllocErr>)
        requires
            old(self).wf(),
            old(self).spec_len() + additional <= isize::MAX,
        ensures
            final(self).wf(),
            final(self).spec_len() == old(self).spec_len(),
            r is Ok ==> final(self).spec_capacity() >= old(self).spec_len() + additional,
            r is Ok ==> bytes_kept(
                old(self).raw().inner(),
                old(self).raw().spec_handle(),
                final(self).raw().inner(),
                final(self).raw().spec_handle(),
                old(self).spec_capacity() as int,
            ),
            r is Ok && old(self).spec_len() + additional <= old(self).spec_capacity() ==> *final(self) == *old(
                self,
            ),
    {
        if additional <= self.raw.len() - self.len {
            Ok(())
        } else {
            self.try_reserve_slow(additional)
        }
    }
}

} // verus!
