mod predicates;

pub use predicates::{AndC, Choose, MaxAlign, MaxSize, MinAlign, MinSize, NotC, OrC};

use crate::core_traits::{
    moved_post, Resize,
    bytes_kept, bytes_zero, move_block, AllocErr, Handle, MemoryBlock, NonEmptyMemoryBlock, ResizableStorage,
    Storage,
};
use crate::layout::{is_pow2, Layout, NonEmptyLayout};
use vstd::prelude::*;

verus! {

/// A handle of a picker: which of the two storages the block came from, and
/// its handle there.
#[derive(Clone, Copy, Debug)]
pub enum PickerHandle<L, R> {
    Left(L),
    Right(R),
}

impl<L: Handle, R: Handle> Handle for PickerHandle<L, R> {
    open spec fn spec_dangling(align: usize) -> PickerHandle<L, R> {
        PickerHandle::Left(L::spec_dangling(align))
    }

    fn dangling(align: usize) -> (r: PickerHandle<L, R>) {
        PickerHandle::Left(L::dangling(align))
    }
}

/// A left-side result as a picker result.
pub open spec fn left_block<L, R>(r: Result<NonEmptyMemoryBlock<L>, AllocErr>) -> Result<
    NonEmptyMemoryBlock<PickerHandle<L, R>>,
    AllocErr,
> {
    match r {
        Ok(b) => Ok(NonEmptyMemoryBlock { handle: PickerHandle::Left(b.handle), size: b.size }),
        Err(e) => Err(e),
    }
}

/// A right-side result as a picker result.
pub open spec fn right_block<L, R>(r: Result<NonEmptyMemoryBlock<R>, AllocErr>) -> Result<
    NonEmptyMemoryBlock<PickerHandle<L, R>>,
    AllocErr,
> {
    match r {
        Ok(b) => Ok(NonEmptyMemoryBlock { handle: PickerHandle::Right(b.handle), size: b.size }),
        Err(e) => Err(e),
    }
}

/// A left-side plain result as a picker result.
pub open spec fn left_any<L, R>(r: Result<MemoryBlock<L>, AllocErr>) -> Result<
    MemoryBlock<PickerHandle<L, R>>,
    AllocErr,
> {
    match r {
        Ok(b) => Ok(MemoryBlock { handle: PickerHandle::Left(b.handle), size: b.size }),
        Err(e) => Err(e),
    }
}

/// A right-side plain result as a picker result.
pub open spec fn right_any<L, R>(r: Result<MemoryBlock<R>, AllocErr>) -> Result<
    MemoryBlock<PickerHandle<L, R>>,
    AllocErr,
> {
    match r {
        Ok(b) => Ok(MemoryBlock { handle: PickerHandle::Right(b.handle), size: b.size }),
        Err(e) => Err(e),
    }
}

/// Two storages and a predicate over layouts: requests the predicate
/// accepts go to `left`, the others to `right`.
pub struct Picker<F, A, B> {
    pub predicate: F,
    pub left: A,
    pub right: B,
}

impl<F: Choose, A: Storage, B: Storage> Storage for Picker<F, A, B> {
    type Handle = PickerHandle<A::Handle, B::Handle>;

    open spec fn wf(&self) -> bool {
        self.left.wf() && self.right.wf()
    }

    /// The left storage's bytes followed by the right one's.
    open spec fn mem(&self) -> Seq<u8> {
        self.left.mem() + self.right.mem()
    }

    open spec fn addr(&self, handle: PickerHandle<A::Handle, B::Handle>) -> int {
        match handle {
            PickerHandle::Left(h) => self.left.addr(h),
            PickerHandle::Right(h) => self.left.mem().len() + self.right.addr(h),
        }
    }

    open spec fn in_bounds(&self, handle: PickerHandle<A::Handle, B::Handle>, index: int) -> bool {
        match handle {
            PickerHandle::Left(h) => self.left.in_bounds(h, index),
            PickerHandle::Right(h) => self.right.in_bounds(h, index),
        }
    }

    open spec fn same_state(&self, other: Self) -> bool {
        &&& other.predicate == self.predicate
        &&& self.left.same_state(other.left)
        &&& self.right.same_state(other.right)
    }

    proof fn lemma_same_state_refl(&self) {
        self.left.lemma_same_state_refl();
        self.right.lemma_same_state_refl();
    }

    proof fn lemma_same_state_trans(&self, b: Self, c: Self) {
        self.left.lemma_same_state_trans(b.left, c.left);
        self.right.lemma_same_state_trans(b.right, c.right);
    }

    /// The predicate, asked once, sends the request to one side; the other
    /// side is left alone.
    open spec fn allocate_post(
        &self,
        layout: NonEmptyLayout,
        post: Self,
        r: Result<NonEmptyMemoryBlock<PickerHandle<A::Handle, B::Handle>>, AllocErr>,
    ) -> bool {
        &&& post.predicate == self.predicate
        &&& if self.predicate.spec_select(layout.spec_layout()) {
            &&& post.right == self.right
            &&& exists|ir: Result<NonEmptyMemoryBlock<A::Handle>, AllocErr>|
                self.left.allocate_post(layout, post.left, ir) && r == left_block::<A::Handle, B::Handle>(ir)
        } else {
            &&& post.left == self.left
            &&& exists|ir: Result<NonEmptyMemoryBlock<B::Handle>, AllocErr>|
                self.right.allocate_post(layout, post.right, ir) && r == right_block::<A::Handle, B::Handle>(ir)
        }
    }

    /// The predicate sends the block back to the side it picks; a handle
    /// from the other side is ignored.
    open spec fn deallocate_post(
        &self,
        handle: PickerHandle<A::Handle, B::Handle>,
        layout: NonEmptyLayout,
        post: Self,
    ) -> bool {
        &&& post.predicate == self.predicate
        &&& match (self.predicate.spec_select(layout.spec_layout()), handle) {
            (true, PickerHandle::Left(h)) => post.right == self.right && self.left.deallocate_post(
                h,
                layout,
                post.left,
            ),
            (false, PickerHandle::Right(h)) => post.left == self.left && self.right.deallocate_post(
                h,
                layout,
                post.right,
            ),
            _ => post == *self,
        }
    }

    open spec fn allocate_any_post(
        &self,
        layout: Layout,
        post: Self,
        r: Result<MemoryBlock<PickerHandle<A::Handle, B::Handle>>, AllocErr>,
    ) -> bool {
        &&& post.predicate == self.predicate
        &&& if self.predicate.spec_select(layout) {
            &&& post.right == self.right
            &&& exists|ir: Result<MemoryBlock<A::Handle>, AllocErr>|
                self.left.allocate_any_post(layout, post.left, ir) && r == left_any::<A::Handle, B::Handle>(ir)
        } else {
            &&& post.left == self.left
            &&& exists|ir: Result<MemoryBlock<B::Handle>, AllocErr>|
                self.right.allocate_any_post(layout, post.right, ir) && r == right_any::<A::Handle, B::Handle>(
                    ir,
                )
        }
    }

    open spec fn deallocate_any_post(
        &self,
        handle: PickerHandle<A::Handle, B::Handle>,
        layout: Layout,
        post: Self,
    ) -> bool {
        &&& post.predicate == self.predicate
        &&& match (self.predicate.spec_select(layout), handle) {
            (true, PickerHandle::Left(h)) => post.right == self.right && self.left.deallocate_any_post(
                h,
                layout,
                post.left,
            ),
            (false, PickerHandle::Right(h)) => post.left == self.left && self.right.deallocate_any_post(
                h,
                layout,
                post.right,
            ),
            _ => post == *self,
        }
    }

    proof fn lemma_allocate_keeps(
        &self,
        layout: NonEmptyLayout,
        post: Self,
        r: Result<NonEmptyMemoryBlock<PickerHandle<A::Handle, B::Handle>>, AllocErr>,
    ) {
        if self.predicate.spec_select(layout.spec_layout()) {
            let ir = choose|ir: Result<NonEmptyMemoryBlock<A::Handle>, AllocErr>|
                self.left.allocate_post(layout, post.left, ir) && r == left_block::<A::Handle, B::Handle>(ir);
            self.left.lemma_allocate_keeps(layout, post.left, ir);
        } else {
            let ir = choose|ir: Result<NonEmptyMemoryBlock<B::Handle>, AllocErr>|
                self.right.allocate_post(layout, post.right, ir) && r == right_block::<A::Handle, B::Handle>(ir);
            self.right.lemma_allocate_keeps(layout, post.right, ir);
        }
        assert(post.mem() =~= self.mem());
    }

    proof fn lemma_in_bounds(&self, handle: PickerHandle<A::Handle, B::Handle>, index: int) {
        match handle {
            PickerHandle::Left(h) => self.left.lemma_in_bounds(h, index),
            PickerHandle::Right(h) => self.right.lemma_in_bounds(h, index),
        }
    }

    fn get(&self, handle: PickerHandle<A::Handle, B::Handle>, index: usize) -> (r: Option<u8>) {
        match handle {
            PickerHandle::Left(h) => {
                let r = self.left.get(h, index);
                proof {
                    if r is Some {
                        self.left.lemma_in_bounds(h, index as int);
                    }
                }
                r
            },
            PickerHandle::Right(h) => {
                let r = self.right.get(h, index);
                proof {
                    if r is Some {
                        self.right.lemma_in_bounds(h, index as int);
                    }
                }
                r
            },
        }
    }

    fn get_mut(&mut self, handle: PickerHandle<A::Handle, B::Handle>, index: usize, value: u8) -> (r: bool) {
        match handle {
            PickerHandle::Left(h) => {
                let r = self.left.get_mut(h, index, value);
                proof {
                    self.right.lemma_same_state_refl();
                    if r {
                        old(self).left.lemma_in_bounds(h, index as int);
                        assert(self.mem() =~= old(self).mem().update(old(self).addr(handle) + index, value));
                    } else {
                        assert(self.mem() =~= old(self).mem());
                    }
                }
                r
            },
            PickerHandle::Right(h) => {
                let r = self.right.get_mut(h, index, value);
                proof {
                    self.left.lemma_same_state_refl();
                    if r {
                        old(self).right.lemma_in_bounds(h, index as int);
                        assert(self.mem() =~= old(self).mem().update(old(self).addr(handle) + index, value));
                    } else {
                        assert(self.mem() =~= old(self).mem());
                    }
                }
                r
            },
        }
    }

    fn allocate_nonempty(&mut self, layout: NonEmptyLayout) -> (r: Result<
        NonEmptyMemoryBlock<PickerHandle<A::Handle, B::Handle>>,
        AllocErr,
    >) {
        if self.predicate.select(layout.to_layout()) {
            let ir = self.left.allocate_nonempty(layout);
            let r = match ir {
                Ok(b) => Ok(NonEmptyMemoryBlock { handle: PickerHandle::Left(b.handle), size: b.size }),
                Err(e) => Err(e),
            };
            proof {
                assert(old(self).left.allocate_post(layout, self.left, ir) && r == left_block::<
                    A::Handle,
                    B::Handle,
                >(ir));
            }
            r
        } else {
            let ir = self.right.allocate_nonempty(layout);
            let r = match ir {
                Ok(b) => Ok(NonEmptyMemoryBlock { handle: PickerHandle::Right(b.handle), size: b.size }),
                Err(e) => Err(e),
            };
            proof {
                assert(old(self).right.allocate_post(layout, self.right, ir) && r == right_block::<
                    A::Handle,
                    B::Handle,
                >(ir));
            }
            r
        }
    }

    fn deallocate_nonempty(&mut self, handle: PickerHandle<A::Handle, B::Handle>, layout: NonEmptyLayout) {
        let go_left = self.predicate.select(layout.to_layout());
        match handle {
            PickerHandle::Left(h) => {
                if go_left {
                    self.left.deallocate_nonempty(h, layout)
                }
            },
            PickerHandle::Right(h) => {
                if !go_left {
                    self.right.deallocate_nonempty(h, layout)
                }
            },
        }
    }

    fn allocate(&mut self, layout: Layout) -> (r: Result<MemoryBlock<PickerHandle<A::Handle, B::Handle>>, AllocErr>) {
        if self.predicate.select(layout) {
            let ir = self.left.allocate(layout);
            let r = match ir {
                Ok(b) => Ok(MemoryBlock { handle: PickerHandle::Left(b.handle), size: b.size }),
                Err(e) => Err(e),
            };
            proof {
                assert(old(self).left.allocate_any_post(layout, self.left, ir) && r == left_any::<
                    A::Handle,
                    B::Handle,
                >(ir));
            }
            r
        } else {
            let ir = self.right.allocate(layout);
            let r = match ir {
                Ok(b) => Ok(MemoryBlock { handle: PickerHandle::Right(b.handle), size: b.size }),
                Err(e) => Err(e),
            };
            proof {
                assert(old(self).right.allocate_any_post(layout, self.right, ir) && r == right_any::<
                    A::Handle,
                    B::Handle,
                >(ir));
            }
            r
        }
    }

    fn deallocate(&mut self, handle: PickerHandle<A::Handle, B::Handle>, layout: Layout) {
        let go_left = self.predicate.select(layout);
        match handle {
            PickerHandle::Left(h) => {
                if go_left {
                    self.left.deallocate(h, layout)
                }
            },
            PickerHandle::Right(h) => {
                if !go_left {
                    self.right.deallocate(h, layout)
                }
            },
        }
    }
}

/// Bytes kept by the left storage are kept by the picker.
proof fn lemma_left_kept<F: Choose, A: Storage, B: Storage>(
    pre: Picker<F, A, B>,
    h: A::Handle,
    post: Picker<F, A, B>,
    ir: Result<MemoryBlock<A::Handle>, AllocErr>,
    n: int,
    lo: int,
    hi: int,
)
    requires
        pre.wf(),
        post.wf(),
        post.right == pre.right,
        ir is Ok ==> bytes_kept(pre.left, h, post.left, ir->Ok_0.handle, n),
    ensures
        ir is Ok ==> bytes_kept(pre, PickerHandle::Left(h), post, PickerHandle::Left(ir->Ok_0.handle), n),
        ir is Ok && bytes_zero(post.left, ir->Ok_0.handle, lo, hi) ==> bytes_zero(
            post,
            PickerHandle::Left(ir->Ok_0.handle),
            lo,
            hi,
        ),
{
    if ir is Ok {
        let h3 = ir->Ok_0.handle;
        if bytes_zero(post.left, h3, lo, hi) {
            assert forall|i: int| lo <= i < hi && #[trigger] post.in_bounds(PickerHandle::Left(h3), i) implies post.mem()[post.addr(
                PickerHandle::Left(h3),
            ) + i] == 0 by {
                post.left.lemma_in_bounds(h3, i);
            }
        }
        let h2 = ir->Ok_0.handle;
        assert forall|i: int|
            0 <= i < n && #[trigger] pre.in_bounds(PickerHandle::Left(h), i) && post.in_bounds(
                PickerHandle::Left(h2),
                i,
            ) implies post.mem()[post.addr(PickerHandle::Left(h2)) + i] == pre.mem()[pre.addr(
            PickerHandle::Left(h),
        ) + i] by {
            pre.left.lemma_in_bounds(h, i);
            post.left.lemma_in_bounds(h2, i);
            assert(pre.left.in_bounds(h, i));
        }
    }
}

/// Bytes kept by the right storage are kept by the picker.
proof fn lemma_right_kept<F: Choose, A: Storage, B: Storage>(
    pre: Picker<F, A, B>,
    h: B::Handle,
    post: Picker<F, A, B>,
    ir: Result<MemoryBlock<B::Handle>, AllocErr>,
    n: int,
    lo: int,
    hi: int,
)
    requires
        pre.wf(),
        post.wf(),
        post.left == pre.left,
        ir is Ok ==> bytes_kept(pre.right, h, post.right, ir->Ok_0.handle, n),
    ensures
        ir is Ok ==> bytes_kept(pre, PickerHandle::Right(h), post, PickerHandle::Right(ir->Ok_0.handle), n),
        ir is Ok && bytes_zero(post.right, ir->Ok_0.handle, lo, hi) ==> bytes_zero(
            post,
            PickerHandle::Right(ir->Ok_0.handle),
            lo,
            hi,
        ),
{
    if ir is Ok {
        let h3 = ir->Ok_0.handle;
        if bytes_zero(post.right, h3, lo, hi) {
            assert forall|i: int| lo <= i < hi && #[trigger] post.in_bounds(PickerHandle::Right(h3), i) implies post.mem()[post.addr(
                PickerHandle::Right(h3),
            ) + i] == 0 by {
                post.right.lemma_in_bounds(h3, i);
            }
        }
        let h2 = ir->Ok_0.handle;
        assert forall|i: int|
            0 <= i < n && #[trigger] pre.in_bounds(PickerHandle::Right(h), i) && post.in_bounds(
                PickerHandle::Right(h2),
                i,
            ) implies post.mem()[post.addr(PickerHandle::Right(h2)) + i] == pre.mem()[pre.addr(
            PickerHandle::Right(h),
        ) + i] by {
            pre.right.lemma_in_bounds(h, i);
            post.right.lemma_in_bounds(h2, i);
            assert(pre.right.in_bounds(h, i));
        }
    }
}

impl<F: Choose, A: ResizableStorage, B: ResizableStorage> ResizableStorage for Picker<F, A, B> {
    /// A block whose old and new layouts the predicate sends to the same side
    /// is resized there; across the boundary it moves the general way.
    open spec fn resize_post(
        &self,
        handle: PickerHandle<A::Handle, B::Handle>,
        old_layout: Layout,
        new_layout: Layout,
        kind: Resize,
        post: Self,
        r: Result<MemoryBlock<PickerHandle<A::Handle, B::Handle>>, AllocErr>,
    ) -> bool {
        if old_layout == new_layout {
            r == Ok::<MemoryBlock<PickerHandle<A::Handle, B::Handle>>, AllocErr>(
                MemoryBlock { handle, size: old_layout.spec_size() },
            ) && post == *self
        } else {
            match (self.predicate.spec_select(old_layout), self.predicate.spec_select(new_layout), handle) {
                (true, true, PickerHandle::Left(h)) => exists|ir: Result<MemoryBlock<A::Handle>, AllocErr>|
                    #[trigger] self.left.resize_post(h, old_layout, new_layout, kind, post.left, ir) && post.right
                        == self.right && post.predicate == self.predicate && r == left_any::<A::Handle, B::Handle>(ir),
                (false, false, PickerHandle::Right(h)) => exists|ir: Result<MemoryBlock<B::Handle>, AllocErr>|
                    #[trigger] self.right.resize_post(h, old_layout, new_layout, kind, post.right, ir) && post.left
                        == self.left && post.predicate == self.predicate && r == right_any::<A::Handle, B::Handle>(ir),
                _ => moved_post(*self, handle, old_layout, new_layout, post, r),
            }
        }
    }

    fn grow(&mut self, handle: PickerHandle<A::Handle, B::Handle>, old_layout: Layout, new_layout: Layout) -> (r: Result<
        MemoryBlock<PickerHandle<A::Handle, B::Handle>>,
        AllocErr,
    >) {
        if old_layout == new_layout {
            return Ok(MemoryBlock { handle, size: old_layout.size() });
        }
        let from_left = self.predicate.select(old_layout);
        let to_left = self.predicate.select(new_layout);
        match handle {
            PickerHandle::Left(h) => {
                if from_left && to_left {
                    let ir = self.left.grow(h, old_layout, new_layout);
                    proof {
                        lemma_left_kept(*old(self), h, *self, ir, old_layout.spec_size() as int, old_layout.spec_size() as int, new_layout.spec_size() as int);
                    }
                    let out = match ir {
                        Ok(b) => Ok(MemoryBlock { handle: PickerHandle::Left(b.handle), size: b.size }),
                        Err(e) => Err(e),
                    };
                    proof {
                        assert(old(self).left.resize_post(h, old_layout, new_layout, Resize::Grow, self.left, ir) && out == left_any::<
                            A::Handle,
                            B::Handle,
                        >(ir));
                    }
                    return out;
                }
            },
            PickerHandle::Right(h) => {
                if !from_left && !to_left {
                    let ir = self.right.grow(h, old_layout, new_layout);
                    proof {
                        lemma_right_kept(*old(self), h, *self, ir, old_layout.spec_size() as int, old_layout.spec_size() as int, new_layout.spec_size() as int);
                    }
                    let out = match ir {
                        Ok(b) => Ok(MemoryBlock { handle: PickerHandle::Right(b.handle), size: b.size }),
                        Err(e) => Err(e),
                    };
                    proof {
                        assert(old(self).right.resize_post(h, old_layout, new_layout, Resize::Grow, self.right, ir) && out == right_any::<
                            A::Handle,
                            B::Handle,
                        >(ir));
                    }
                    return out;
                }
            },
        }
        move_block(self, handle, old_layout, new_layout, old_layout.size(), false)
    }

    fn grow_zeroed(&mut self, handle: PickerHandle<A::Handle, B::Handle>, old_layout: Layout, new_layout: Layout) -> (r: Result<
        MemoryBlock<PickerHandle<A::Handle, B::Handle>>,
        AllocErr,
    >) {
        if old_layout == new_layout {
            return Ok(MemoryBlock { handle, size: old_layout.size() });
        }
        let from_left = self.predicate.select(old_layout);
        let to_left = self.predicate.select(new_layout);
        match handle {
            PickerHandle::Left(h) => {
                if from_left && to_left {
                    let ir = self.left.grow_zeroed(h, old_layout, new_layout);
                    proof {
                        lemma_left_kept(*old(self), h, *self, ir, old_layout.spec_size() as int, old_layout.spec_size() as int, new_layout.spec_size() as int);
                    }
                    let out = match ir {
                        Ok(b) => Ok(MemoryBlock { handle: PickerHandle::Left(b.handle), size: b.size }),
                        Err(e) => Err(e),
                    };
                    proof {
                        assert(old(self).left.resize_post(h, old_layout, new_layout, Resize::GrowZeroed, self.left, ir) && out == left_any::<
                            A::Handle,
                            B::Handle,
                        >(ir));
                    }
                    return out;
                }
            },
            PickerHandle::Right(h) => {
                if !from_left && !to_left {
                    let ir = self.right.grow_zeroed(h, old_layout, new_layout);
                    proof {
                        lemma_right_kept(*old(self), h, *self, ir, old_layout.spec_size() as int, old_layout.spec_size() as int, new_layout.spec_size() as int);
                    }
                    let out = match ir {
                        Ok(b) => Ok(MemoryBlock { handle: PickerHandle::Right(b.handle), size: b.size }),
                        Err(e) => Err(e),
                    };
                    proof {
                        assert(old(self).right.resize_post(h, old_layout, new_layout, Resize::GrowZeroed, self.right, ir) && out == right_any::<
                            A::Handle,
                            B::Handle,
                        >(ir));
                    }
                    return out;
                }
            },
        }
        move_block(self, handle, old_layout, new_layout, old_layout.size(), true)
    }

    fn shrink(&mut self, handle: PickerHandle<A::Handle, B::Handle>, old_layout: Layout, new_layout: Layout) -> (r: Result<
        MemoryBlock<PickerHandle<A::Handle, B::Handle>>,
        AllocErr,
    >) {
        if old_layout == new_layout {
            return Ok(MemoryBlock { handle, size: old_layout.size() });
        }
        let from_left = self.predicate.select(old_layout);
        let to_left = self.predicate.select(new_layout);
        match handle {
            PickerHandle::Left(h) => {
                if from_left && to_left {
                    let ir = self.left.shrink(h, old_layout, new_layout);
                    proof {
                        lemma_left_kept(*old(self), h, *self, ir, new_layout.spec_size() as int, old_layout.spec_size() as int, new_layout.spec_size() as int);
                    }
                    let out = match ir {
                        Ok(b) => Ok(MemoryBlock { handle: PickerHandle::Left(b.handle), size: b.size }),
                        Err(e) => Err(e),
                    };
                    proof {
                        assert(old(self).left.resize_post(h, old_layout, new_layout, Resize::Shrink, self.left, ir) && out == left_any::<
                            A::Handle,
                            B::Handle,
                        >(ir));
                    }
                    return out;
                }
            },
            PickerHandle::Right(h) => {
                if !from_left && !to_left {
                    let ir = self.right.shrink(h, old_layout, new_layout);
                    proof {
                        lemma_right_kept(*old(self), h, *self, ir, new_layout.spec_size() as int, old_layout.spec_size() as int, new_layout.spec_size() as int);
                    }
                    let out = match ir {
                        Ok(b) => Ok(MemoryBlock { handle: PickerHandle::Right(b.handle), size: b.size }),
                        Err(e) => Err(e),
                    };
                    proof {
                        assert(old(self).right.resize_post(h, old_layout, new_layout, Resize::Shrink, self.right, ir) && out == right_any::<
                            A::Handle,
                            B::Handle,
                        >(ir));
                    }
                    return out;
                }
            },
        }
        move_block(self, handle, old_layout, new_layout, new_layout.size(), true)
    }
}

} // verus!
