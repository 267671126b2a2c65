use crate::core_traits::{
    moved_post, Resize,
    block_readable, bytes_kept, bytes_zero, lemma_outside_run, lemma_same_addressing_trans,
    in_run, read_run, write_run,
    moved_at, reachable, run_byte, same_addressing, zero_range, AllocErr,
    Handle, MemoryBlock, NonEmptyMemoryBlock, OffsetHandle, ResizableStorage, Storage,
};
use crate::layout::{extend_spec, lemma_extend, Layout, NonEmptyLayout};
use core::marker::PhantomData;
use vstd::prelude::*;

verus! {

/// Supplies the layout of a prefix or suffix.
pub trait LayoutProvider {
    /// The layout, when it is a valid one.
    spec fn spec_layout() -> Option<Layout>;

    /// The layout, when it is a valid one.
    fn layout() -> (r: Option<Layout>)
        ensures
            r == Self::spec_layout(),
    ;
}

/// The layout of a value of type `T`.
pub struct TypedLayoutProvider<T>(PhantomData<T>);

/// The layout of `SIZE` bytes aligned to `ALIGN`.
pub struct ConstLayoutProvider<const SIZE: usize, const ALIGN: usize>;

impl<T> LayoutProvider for TypedLayoutProvider<T> {
    open spec fn spec_layout() -> Option<Layout> {
        if crate::layout::valid_layout(
            vstd::layout::size_of::<T>() as usize as int,
            vstd::layout::align_of::<T>() as usize as int,
        ) {
            Some(
                Layout::spec_new(
                    vstd::layout::size_of::<T>() as usize,
                    vstd::layout::align_of::<T>() as usize,
                ),
            )
        } else {
            None
        }
    }

    fn layout() -> (r: Option<Layout>) {
        Layout::from_size_align(core::mem::size_of::<T>(), core::mem::align_of::<T>())
    }
}

impl<const SIZE: usize, const ALIGN: usize> LayoutProvider for ConstLayoutProvider<SIZE, ALIGN> {
    open spec fn spec_layout() -> Option<Layout> {
        if crate::layout::valid_layout(SIZE as int, ALIGN as int) {
            Some(Layout::spec_new(SIZE, ALIGN))
        } else {
            None
        }
    }

    fn layout() -> (r: Option<Layout>) {
        Layout::from_size_align(SIZE, ALIGN)
    }
}

/// The layout of a block with a `Pre` prefix and a `Suf` suffix around
/// `layout`: the whole layout, where the payload starts and where the suffix
/// starts; `None` on overflow.
pub open spec fn surround_spec<Pre: LayoutProvider, Suf: LayoutProvider>(layout: Layout) -> Option<
    (Layout, usize, usize),
> {
    match (Pre::spec_layout(), Suf::spec_layout()) {
        (Some(pre), Some(suf)) => match extend_spec(pre, layout) {
            Some((with_pre, offset)) => match extend_spec(with_pre, suf) {
                Some((whole, suffix)) => Some((whole, offset, suffix)),
                None => None,
            },
            None => None,
        },
        _ => None,
    }
}

/// A handle of an affix storage: the inner handle of the payload.
#[derive(Clone, Copy, Debug)]
pub struct AffixHandle<H> {
    pub inner: H,
}

impl<H: Handle> Handle for AffixHandle<H> {
    open spec fn spec_dangling(align: usize) -> AffixHandle<H> {
        AffixHandle { inner: H::spec_dangling(align) }
    }

    fn dangling(align: usize) -> (r: AffixHandle<H>) {
        AffixHandle { inner: H::dangling(align) }
    }
}

/// A storage that places a `Pre` prefix before and a `Suf` suffix after
/// every block it hands out, for metadata such as reference counts; callers
/// see only the payload between them.
pub struct AffixStorage<Pre, Suf, S> {
    pub marker: PhantomData<(Pre, Suf)>,
    pub inner: S,
}

/// An inner result as an affix result: the handle moved to the payload, the
/// size that of the payload up to the suffix.
pub open spec fn affix_block<S: OffsetHandle>(
    inner: S,
    r: Result<NonEmptyMemoryBlock<S::Handle>, AllocErr>,
    prefix: usize,
    suffix: usize,
) -> Result<NonEmptyMemoryBlock<AffixHandle<S::Handle>>, AllocErr> {
    match r {
        Ok(b) => Ok(
            NonEmptyMemoryBlock {
                handle: AffixHandle { inner: inner.spec_offset(b.handle, prefix as isize) },
                size: (suffix - prefix) as usize,
            },
        ),
        Err(e) => Err(e),
    }
}

/// As `affix_block`, for a possibly empty block.
pub open spec fn affix_any<S: OffsetHandle>(
    inner: S,
    r: Result<MemoryBlock<S::Handle>, AllocErr>,
    prefix: usize,
    suffix: usize,
) -> Result<MemoryBlock<AffixHandle<S::Handle>>, AllocErr> {
    match r {
        Ok(b) => Ok(
            MemoryBlock {
                handle: AffixHandle { inner: inner.spec_offset(b.handle, prefix as isize) },
                size: (suffix - prefix) as usize,
            },
        ),
        Err(e) => Err(e),
    }
}

impl<Pre, Suf, S> AffixStorage<Pre, Suf, S> {
    /// `storage` with affixes around its blocks.
    pub fn new(storage: S) -> (r: Self)
        ensures
            r.inner == storage,
    {
        AffixStorage { marker: PhantomData, inner: storage }
    }
}

impl<Pre: LayoutProvider, Suf: LayoutProvider, S: OffsetHandle> AffixStorage<Pre, Suf, S> {
    /// The whole layout around `layout`, the payload offset and the suffix
    /// offset.
    pub fn surround(layout: Layout) -> (r: Option<(Layout, usize, usize)>)
        ensures
            r == surround_spec::<Pre, Suf>(layout),
            r is Some ==> {
                let (whole, prefix, suffix) = r->0;
                &&& Pre::spec_layout()->0.spec_size() <= prefix
                &&& prefix + layout.spec_size() <= suffix
                &&& suffix + Suf::spec_layout()->0.spec_size() == whole.spec_size()
                &&& whole.spec_size() <= isize::MAX
                &&& Pre::spec_layout() is Some && Suf::spec_layout() is Some
            },
    {
        let pre = match Pre::layout() {
            Some(l) => l,
            None => return None,
        };
        let suf = match Suf::layout() {
            Some(l) => l,
            None => return None,
        };
        let layout_align = layout.align();
        let suf_align = suf.align();
        proof {
            crate::layout::lemma_pow2_pos(layout_align as int);
            crate::layout::lemma_pow2_pos(suf_align as int);
            lemma_extend(pre, layout);
        }
        let (with_pre, offset) = match pre.extend(layout) {
            Some(x) => x,
            None => return None,
        };
        proof {
            lemma_extend(with_pre, suf);
        }
        let (whole, suffix) = match with_pre.extend(suf) {
            Some(x) => x,
            None => return None,
        };
        Some((whole, offset, suffix))
    }

    /// The handles of the prefix and of the suffix of the block at `handle`
    /// allocated with `layout`; `None` when the affixes cannot be laid out.
    pub fn split(&self, handle: AffixHandle<S::Handle>, layout: Layout) -> (r: Option<(S::Handle, S::Handle)>)
        requires
            self.inner.wf(),
        ensures
            match surround_spec::<Pre, Suf>(layout) {
                Some((whole, prefix, suffix)) => r == Some(
                    (
                        self.inner.spec_offset(handle.inner, -(prefix as int) as isize),
                        self.inner.spec_offset(handle.inner, (suffix - prefix) as isize),
                    ),
                ),
                None => r is None,
            },
    {
        match Self::surround(layout) {
            Some((whole, prefix, suffix)) => {
                let back = -(prefix as isize);
                let ahead = (suffix - prefix) as isize;
                Some((self.inner.offset(handle.inner, back), self.inner.offset(handle.inner, ahead)))
            },
            None => None,
        }
    }
}

impl<Pre: LayoutProvider, Suf: LayoutProvider, S: OffsetHandle> Storage for AffixStorage<Pre, Suf, S> {
    type Handle = AffixHandle<S::Handle>;

    open spec fn wf(&self) -> bool {
        self.inner.wf()
    }

    open spec fn mem(&self) -> Seq<u8> {
        self.inner.mem()
    }

    open spec fn addr(&self, handle: AffixHandle<S::Handle>) -> int {
        self.inner.addr(handle.inner)
    }

    open spec fn in_bounds(&self, handle: AffixHandle<S::Handle>, index: int) -> bool {
        self.inner.in_bounds(handle.inner, index)
    }

    open spec fn same_state(&self, other: Self) -> bool {
        self.inner.same_state(other.inner)
    }

    proof fn lemma_same_state_refl(&self) {
        self.inner.lemma_same_state_refl();
    }

    proof fn lemma_same_state_trans(&self, b: Self, c: Self) {
        self.inner.lemma_same_state_trans(b.inner, c.inner);
    }

    /// The surrounded layout is allocated from the inner storage and the
    /// handle moved past the prefix; a layout that cannot be surrounded
    /// fails.
    open spec fn allocate_post(
        &self,
        layout: NonEmptyLayout,
        post: Self,
        r: Result<NonEmptyMemoryBlock<AffixHandle<S::Handle>>, AllocErr>,
    ) -> bool {
        match surround_spec::<Pre, Suf>(layout.spec_layout()) {
            Some((whole, prefix, suffix)) => exists|ir: Result<NonEmptyMemoryBlock<S::Handle>, AllocErr>|
                self.inner.allocate_post(NonEmptyLayout::spec_from(whole), post.inner, ir) && r == affix_block(
                    post.inner,
                    ir,
                    prefix,
                    suffix,
                ),
            None => post == *self && r == Err::<NonEmptyMemoryBlock<AffixHandle<S::Handle>>, AllocErr>(
                AllocErr(layout.spec_layout(), ()),
            ),
        }
    }

    /// The handle is moved back to the prefix and the surrounded layout given
    /// back to the inner storage.
    open spec fn deallocate_post(
        &self,
        handle: AffixHandle<S::Handle>,
        layout: NonEmptyLayout,
        post: Self,
    ) -> bool {
        match surround_spec::<Pre, Suf>(layout.spec_layout()) {
            Some((whole, prefix, suffix)) => self.inner.deallocate_post(
                self.inner.spec_offset(handle.inner, -(prefix as int) as isize),
                NonEmptyLayout::spec_from(whole),
                post.inner,
            ),
            None => post == *self,
        }
    }

    open spec fn allocate_any_post(
        &self,
        layout: Layout,
        post: Self,
        r: Result<MemoryBlock<AffixHandle<S::Handle>>, AllocErr>,
    ) -> bool {
        match surround_spec::<Pre, Suf>(layout) {
            Some((whole, prefix, suffix)) => exists|ir: Result<MemoryBlock<S::Handle>, AllocErr>|
                self.inner.allocate_any_post(whole, post.inner, ir) && r == affix_any(
                    post.inner,
                    ir,
                    prefix,
                    suffix,
                ),
            None => post == *self && r == Err::<MemoryBlock<AffixHandle<S::Handle>>, AllocErr>(
                AllocErr(layout, ()),
            ),
        }
    }

    open spec fn deallocate_any_post(
        &self,
        handle: AffixHandle<S::Handle>,
        layout: Layout,
        post: Self,
    ) -> bool {
        match surround_spec::<Pre, Suf>(layout) {
            Some((whole, prefix, suffix)) => self.inner.deallocate_any_post(
                self.inner.spec_offset(handle.inner, -(prefix as int) as isize),
                whole,
                post.inner,
            ),
            None => post == *self,
        }
    }

    proof fn lemma_allocate_keeps(
        &self,
        layout: NonEmptyLayout,
        post: Self,
        r: Result<NonEmptyMemoryBlock<AffixHandle<S::Handle>>, AllocErr>,
    ) {
        match surround_spec::<Pre, Suf>(layout.spec_layout()) {
            Some((whole, prefix, suffix)) => {
                let ir = choose|ir: Result<NonEmptyMemoryBlock<S::Handle>, AllocErr>|
                    self.inner.allocate_post(NonEmptyLayout::spec_from(whole), post.inner, ir) && r == affix_block(
                        post.inner,
                        ir,
                        prefix,
                        suffix,
                    );
                self.inner.lemma_allocate_keeps(NonEmptyLayout::spec_from(whole), post.inner, ir);
            },
            None => {},
        }
    }

    proof fn lemma_in_bounds(&self, handle: AffixHandle<S::Handle>, index: int) {
        self.inner.lemma_in_bounds(handle.inner, index);
    }

    fn get(&self, handle: AffixHandle<S::Handle>, index: usize) -> (r: Option<u8>) {
        self.inner.get(handle.inner, index)
    }

    fn get_mut(&mut self, handle: AffixHandle<S::Handle>, index: usize, value: u8) -> (r: bool) {
        self.inner.get_mut(handle.inner, index, value)
    }

    fn allocate_nonempty(&mut self, layout: NonEmptyLayout) -> (r: Result<
        NonEmptyMemoryBlock<AffixHandle<S::Handle>>,
        AllocErr,
    >) {
        let plain = layout.to_layout();
        match Self::surround(plain) {
            Some((whole, prefix, suffix)) => {
                let ir = self.inner.allocate_nonempty(NonEmptyLayout::new_unchecked(whole));
                let r = match ir {
                    Ok(b) => {
                        let handle = self.inner.offset(b.handle, prefix as isize);
                        proof {
                            self.inner.lemma_offset(b.handle, prefix as isize);
                            assert forall|i: int| 0 <= i < suffix - prefix implies #[trigger] self.inner.in_bounds(
                                handle,
                                i,
                            ) by {
                                assert(self.inner.in_bounds(b.handle, prefix as int));
                                assert(self.inner.in_bounds(b.handle, prefix + i));
                            }
                        }
                        Ok(NonEmptyMemoryBlock { handle: AffixHandle { inner: handle }, size: suffix - prefix })
                    },
                    Err(e) => Err(e),
                };
                proof {
                    assert(old(self).inner.allocate_post(NonEmptyLayout::spec_from(whole), self.inner, ir)
                        && r == affix_block(self.inner, ir, prefix, suffix));
                }
                r
            },
            None => Err(AllocErr::new(plain)),
        }
    }

    fn deallocate_nonempty(&mut self, handle: AffixHandle<S::Handle>, layout: NonEmptyLayout) {
        match Self::surround(layout.to_layout()) {
            Some((whole, prefix, suffix)) => {
                let start = self.inner.offset(handle.inner, -(prefix as isize));
                self.inner.deallocate_nonempty(start, NonEmptyLayout::new_unchecked(whole))
            },
            None => {},
        }
    }

    fn allocate(&mut self, layout: Layout) -> (r: Result<MemoryBlock<AffixHandle<S::Handle>>, AllocErr>) {
        match Self::surround(layout) {
            Some((whole, prefix, suffix)) => {
                let ir = self.inner.allocate(whole);
                let r = match ir {
                    Ok(b) => {
                        let handle = self.inner.offset(b.handle, prefix as isize);
                        proof {
                            self.inner.lemma_offset(b.handle, prefix as isize);
                            assert forall|i: int| 0 <= i < suffix - prefix implies #[trigger] self.inner.in_bounds(
                                handle,
                                i,
                            ) by {
                                assert(self.inner.in_bounds(b.handle, prefix as int));
                                assert(self.inner.in_bounds(b.handle, prefix + i));
                            }
                        }
                        Ok(MemoryBlock { handle: AffixHandle { inner: handle }, size: suffix - prefix })
                    },
                    Err(e) => Err(e),
                };
                proof {
                    assert(old(self).inner.allocate_any_post(whole, self.inner, ir) && r == affix_any(
                        self.inner,
                        ir,
                        prefix,
                        suffix,
                    ));
                }
                r
            },
            None => Err(AllocErr::new(layout)),
        }
    }

    fn deallocate(&mut self, handle: AffixHandle<S::Handle>, layout: Layout) {
        match Self::surround(layout) {
            Some((whole, prefix, suffix)) => {
                let start = self.inner.offset(handle.inner, -(prefix as isize));
                self.inner.deallocate(start, whole)
            },
            None => {},
        }
    }
}

/// The affixes of a resized block: prefix bytes stay at the start of the
/// whole block, suffix bytes move from the old suffix offset to the new one.
pub open spec fn affixes_moved<Pre: LayoutProvider, Suf: LayoutProvider, S: OffsetHandle>(
    pre: S,
    handle: S::Handle,
    old_layout: Layout,
    post: S,
    new_handle: S::Handle,
    new_layout: Layout,
) -> bool {
    match (surround_spec::<Pre, Suf>(old_layout), surround_spec::<Pre, Suf>(new_layout)) {
        (Some((_, old_prefix, old_suffix)), Some((_, new_prefix, new_suffix))) => {
            let old_start = pre.spec_offset(handle, -(old_prefix as int) as isize);
            let new_start = post.spec_offset(new_handle, -(new_prefix as int) as isize);
            &&& forall|k: int|
                0 <= k < Pre::spec_layout()->0.spec_size() ==> #[trigger] moved_at(
                    pre,
                    old_start,
                    0,
                    post,
                    new_start,
                    0,
                    k,
                )
            &&& forall|k: int|
                0 <= k < Suf::spec_layout()->0.spec_size() ==> #[trigger] moved_at(
                    pre,
                    old_start,
                    old_suffix as int,
                    post,
                    new_start,
                    new_suffix as int,
                    k,
                )
        },
        _ => false,
    }
}

/// The layouts an affix storage refuses to resize between: either cannot be
/// surrounded, the payload would start at another offset in the whole block
/// (an alignment change), or the whole block would shrink on a grow or grow
/// on a shrink.
pub open spec fn resize_refused<Pre: LayoutProvider, Suf: LayoutProvider>(
    old_layout: Layout,
    new_layout: Layout,
    growing: bool,
) -> bool {
    match (surround_spec::<Pre, Suf>(old_layout), surround_spec::<Pre, Suf>(new_layout)) {
        (Some((old_whole, old_prefix, _)), Some((new_whole, new_prefix, _))) => {
            ||| new_prefix != old_prefix
            ||| (growing && old_whole.spec_size() > new_whole.spec_size())
            ||| (!growing && new_whole.spec_size() > old_whole.spec_size())
        },
        _ => true,
    }
}

/// The whole block of the payload at `handle` can be named: moving back over
/// the prefix stays within what the handle can express.
pub open spec fn start_reachable<Pre: LayoutProvider, Suf: LayoutProvider, S: OffsetHandle>(
    inner: S,
    handle: S::Handle,
    layout: Layout,
) -> bool {
    match surround_spec::<Pre, Suf>(layout) {
        Some((_, prefix, _)) => inner.offset_ok(handle, -(prefix as int) as isize),
        None => false,
    }
}

impl<Pre: LayoutProvider, Suf: LayoutProvider, S: ResizableStorage + OffsetHandle> AffixStorage<Pre, Suf, S> {
    /// Resizes the whole block in the inner storage and moves the suffix to
    /// its new offset; when growing, the suffix moves after the inner grow,
    /// when shrinking, before the inner shrink. With `zeroed`, the payload
    /// bytes past the old size are zeroed.
    #[verifier::rlimit(100)]
    fn resize_affixed(
        &mut self,
        handle: AffixHandle<S::Handle>,
        old_layout: Layout,
        new_layout: Layout,
        growing: bool,
        zeroed: bool,
    ) -> (r: Result<MemoryBlock<AffixHandle<S::Handle>>, AllocErr>)
        requires
            old(self).wf(),
            growing ==> old_layout.spec_size() <= new_layout.spec_size(),
            !growing ==> new_layout.spec_size() <= old_layout.spec_size(),
            !growing ==> !zeroed,
        ensures
            final(self).wf(),
            resize_refused::<Pre, Suf>(old_layout, new_layout, growing) ==> r == Err::<
                MemoryBlock<AffixHandle<S::Handle>>,
                AllocErr,
            >(AllocErr(new_layout, ())) && *final(self) == *old(self),
            !resize_refused::<Pre, Suf>(old_layout, new_layout, growing) && !start_reachable::<Pre, Suf, S>(
                old(self).inner,
                handle.inner,
                old_layout,
            ) ==> r == Err::<MemoryBlock<AffixHandle<S::Handle>>, AllocErr>(AllocErr(new_layout, ()))
                && *final(self) == *old(self),
            same_addressing(old(self).inner, final(self).inner),
            r is Ok ==> r->Ok_0.size >= new_layout.spec_size(),
            r is Ok ==> block_readable(final(self).inner, r->Ok_0.handle.inner, r->Ok_0.size as int),
            r is Ok ==> whole_readable::<Pre, Suf, S>(final(self).inner, r->Ok_0.handle.inner, new_layout),
            r is Err ==> final(self).inner.mem() == old(self).inner.mem(),
            r is Ok ==> bytes_kept(
                *old(self),
                handle,
                *final(self),
                r->Ok_0.handle,
                if growing {
                    old_layout.spec_size() as int
                } else {
                    new_layout.spec_size() as int
                },
            ),
            r is Ok ==> affixes_moved::<Pre, Suf, S>(
                old(self).inner,
                handle.inner,
                old_layout,
                final(self).inner,
                r->Ok_0.handle.inner,
                new_layout,
            ),
            r is Ok && zeroed ==> bytes_zero(
                *final(self),
                r->Ok_0.handle,
                old_layout.spec_size() as int,
                new_layout.spec_size() as int,
            ),
            affix_resize_post::<Pre, Suf, S>(
                old(self).inner,
                handle.inner,
                old_layout,
                new_layout,
                if !growing {
                    Resize::Shrink
                } else if zeroed {
                    Resize::GrowZeroed
                } else {
                    Resize::Grow
                },
                final(self).inner,
                r,
            ),
    {
        let (new_whole, new_prefix, new_suffix) = match Self::surround(new_layout) {
            Some(x) => x,
            None => return Err(AllocErr::new(new_layout)),
        };
        let (old_whole, old_prefix, old_suffix) = match Self::surround(old_layout) {
            Some(x) => x,
            None => return Err(AllocErr::new(new_layout)),
        };
        let suffix_size = match Suf::layout() {
            Some(l) => l.size(),
            None => return Err(AllocErr::new(new_layout)),
        };
        if new_prefix != old_prefix || (growing && old_whole.size() > new_whole.size()) || (!growing
            && new_whole.size() > old_whole.size()) {
            return Err(AllocErr::new(new_layout));
        }
        let start = match self.inner.checked_offset(handle.inner, -(old_prefix as isize)) {
            Some(h) => h,
            None => return Err(AllocErr::new(new_layout)),
        };
        let old_size = old_layout.size();
        let new_size = new_layout.size();
        let ghost s0 = self.inner;
        proof {
            s0.lemma_same_state_refl();
            s0.lemma_offset(handle.inner, -(old_prefix as int) as isize);
        }
        let whole_size = new_whole.size();
        if old_whole == new_whole && !reachable(&self.inner, start, old_whole.size()) {
            return Err(AllocErr::new(new_layout));
        }
        let suffix = read_run(&self.inner, start, old_suffix, suffix_size);
        let resized = if !growing {
            self.inner.shrink(start, old_whole, new_whole)
        } else if zeroed {
            self.inner.grow_zeroed(start, old_whole, new_whole)
        } else {
            self.inner.grow(start, old_whole, new_whole)
        };
        let ghost kind = if !growing {
            Resize::Shrink
        } else if zeroed {
            Resize::GrowZeroed
        } else {
            Resize::Grow
        };
        let block = match resized {
            Ok(b) => b,
            Err(e) => {
                let out: Result<MemoryBlock<AffixHandle<S::Handle>>, AllocErr> = Err(e);
                proof {
                    assert(s0.resize_post(start, old_whole, new_whole, kind, self.inner, resized));
                    assert(out is Err && out->Err_0 == resized->Err_0);
                }
                return out;
            },
        };
        let ghost s2 = self.inner;
        write_run(&mut self.inner, block.handle, new_suffix, &suffix);
        let ghost s3 = self.inner;
        if zeroed {
            zero_range(&mut self.inner, block.handle, new_prefix + old_size, new_prefix + new_size);
        }
        let ghost s4 = self.inner;
        let moved = self.inner.offset(block.handle, new_prefix as isize);
        proof {
            let h0 = handle.inner;
            let b = block.handle;
            let pre_size = Pre::spec_layout()->0.spec_size() as int;
            let keep = if growing { old_size as int } else { new_size as int };
            let kept_whole = if growing { old_whole.spec_size() as int } else { new_whole.spec_size() as int };
            if zeroed {
                s2.lemma_same_state_trans(s3, s4);
            } else {
                assert(s4 == s3);
            }
            assert(s2.same_state(s4));
            assert(s0.resize_post(start, old_whole, new_whole, kind, s2, resized));
            lemma_same_addressing_trans(s0, s2, s3);
            lemma_same_addressing_trans(s0, s3, s4);
            // the block is readable
            assert forall|j: int| 0 <= j < whole_size implies #[trigger] s2.in_bounds(b, j) by {
                if old_whole == new_whole {
                    assert(s0.in_bounds(start, j));
                }
            }
            assert forall|j: int| 0 <= j < whole_size implies #[trigger] s4.in_bounds(b, j) by {
                assert(s2.in_bounds(b, j));
            }
            s4.lemma_offset(b, new_prefix as isize);
            s4.lemma_offset(moved, -(new_prefix as int) as isize);
            assert(s4.spec_offset(moved, -(new_prefix as int) as isize) == b);
            // a byte of the whole block below the suffix and outside the zeroed
            // run is the same in s4 as after the inner resize
            assert forall|j: int|
                0 <= j < new_suffix && #[trigger] s2.in_bounds(b, j) && !(zeroed && new_prefix + old_size <= j
                    < new_prefix + new_size) implies s4.mem()[s4.addr(b) + j] == s2.mem()[s2.addr(b) + j] by {
                s2.lemma_in_bounds(b, j);
                let a = s2.addr(b) + j;
                if in_run(s2, b, new_suffix as int, suffix_size as int, a) {
                    let k = choose|k: int| 0 <= k < suffix_size && #[trigger] run_byte(s2, b, new_suffix as int, k, a);
                    assert(false);
                }
                if zeroed {
                    lemma_outside_run(s3, s4, b, new_prefix + old_size, new_prefix + new_size, j);
                }
            }
            // the payload
            assert forall|i: int|
                0 <= i < keep && #[trigger] old(self).in_bounds(handle, i) && self.in_bounds(
                    AffixHandle { inner: moved },
                    i,
                ) implies self.mem()[self.addr(AffixHandle { inner: moved }) + i] == old(self).mem()[old(self).addr(
                handle,
            ) + i] by {
                assert(s0.in_bounds(start, old_prefix + i));
                assert(s2.in_bounds(b, new_prefix + i));
                assert(s2.mem()[s2.addr(b) + old_prefix + i] == s0.mem()[s0.addr(start) + old_prefix + i]);
            }
            // the prefix
            assert forall|k: int| 0 <= k < pre_size implies #[trigger] moved_at(s0, start, 0, s4, b, 0, k) by {
                if s0.in_bounds(start, k) && s4.in_bounds(b, k) {
                    assert(s2.in_bounds(b, k));
                }
            }
            // the suffix
            assert forall|k: int| 0 <= k < suffix_size implies #[trigger] moved_at(
                s0,
                start,
                old_suffix as int,
                s4,
                b,
                new_suffix as int,
                k,
            ) by {
                if s0.in_bounds(start, old_suffix + k) && s4.in_bounds(b, new_suffix + k) {
                    assert(suffix@[k] is Some);
                    assert(s3.in_bounds(b, new_suffix + k));
                    if zeroed {
                        s3.lemma_in_bounds(b, new_suffix + k);
                        lemma_outside_run(s3, s4, b, new_prefix + old_size, new_prefix + new_size, new_suffix + k);
                    }
                }
            }
            if zeroed {
                assert forall|i: int|
                    old_size <= i < new_size && #[trigger] self.in_bounds(AffixHandle { inner: moved }, i)
                    implies self.mem()[self.addr(AffixHandle { inner: moved }) + i] == 0 by {
                    assert(s4.in_bounds(b, new_prefix + i));
                }
            }
            assert forall|i: int| 0 <= i < new_suffix - new_prefix implies #[trigger] s4.in_bounds(moved, i) by {
                assert(s4.in_bounds(b, new_prefix + i));
            }
            assert(whole_readable::<Pre, Suf, S>(s4, moved, new_layout));
        }
        Ok(MemoryBlock { handle: AffixHandle { inner: moved }, size: new_suffix - new_prefix })
    }
}

/// What the affix storage does to resize: a refused resize, or one whose
/// whole block cannot be named, fails with nothing changed; so does one that
/// keeps the whole layout when that block is not all readable. Otherwise the
/// whole block is resized in the inner storage; on success the suffix is
/// written at its new offset and, for a zeroed grow, the new payload bytes
/// are zeroed, and the result is the inner one moved past the prefix.
pub open spec fn affix_resize_post<Pre: LayoutProvider, Suf: LayoutProvider, S: ResizableStorage + OffsetHandle>(
    inner: S,
    handle: S::Handle,
    old_layout: Layout,
    new_layout: Layout,
    kind: Resize,
    post: S,
    r: Result<MemoryBlock<AffixHandle<S::Handle>>, AllocErr>,
) -> bool {
    let growing = kind != Resize::Shrink;
    if resize_refused::<Pre, Suf>(old_layout, new_layout, growing) || !start_reachable::<Pre, Suf, S>(
        inner,
        handle,
        old_layout,
    ) {
        r == Err::<MemoryBlock<AffixHandle<S::Handle>>, AllocErr>(AllocErr(new_layout, ())) && post == inner
    } else {
        let (old_whole, old_prefix, _) = surround_spec::<Pre, Suf>(old_layout)->0;
        let (new_whole, new_prefix, new_suffix) = surround_spec::<Pre, Suf>(new_layout)->0;
        let start = inner.spec_offset(handle, -(old_prefix as int) as isize);
        if old_whole == new_whole && !block_readable(inner, start, old_whole.spec_size() as int) {
            r == Err::<MemoryBlock<AffixHandle<S::Handle>>, AllocErr>(AllocErr(new_layout, ())) && post == inner
        } else {
            exists|after: S, ir: Result<MemoryBlock<S::Handle>, AllocErr>|
                #![trigger inner.resize_post(start, old_whole, new_whole, kind, after, ir)]
                {
                    &&& inner.resize_post(start, old_whole, new_whole, kind, after, ir)
                    &&& ir is Err ==> r is Err && r->Err_0 == ir->Err_0 && post == after
                    &&& ir is Ok ==> after.same_state(post) && r is Ok && r->Ok_0.handle.inner == post.spec_offset(
                        ir->Ok_0.handle,
                        new_prefix as isize,
                    ) && r->Ok_0.size == new_suffix - new_prefix
                }
        }
    }
}

/// The whole block around the payload at `new_handle`, for `new_layout`, is
/// readable from its start.
pub open spec fn whole_readable<Pre: LayoutProvider, Suf: LayoutProvider, S: OffsetHandle>(
    inner: S,
    new_handle: S::Handle,
    new_layout: Layout,
) -> bool {
    match surround_spec::<Pre, Suf>(new_layout) {
        Some((whole, prefix, _)) => block_readable(
            inner,
            inner.spec_offset(new_handle, -(prefix as int) as isize),
            whole.spec_size() as int,
        ),
        None => false,
    }
}

impl<Pre: LayoutProvider, Suf: LayoutProvider, S: ResizableStorage + OffsetHandle> ResizableStorage for AffixStorage<
    Pre,
    Suf,
    S,
> {
    open spec fn resize_post(
        &self,
        handle: AffixHandle<S::Handle>,
        old_layout: Layout,
        new_layout: Layout,
        kind: Resize,
        post: Self,
        r: Result<MemoryBlock<AffixHandle<S::Handle>>, AllocErr>,
    ) -> bool {
        if old_layout == new_layout {
            r == Ok::<MemoryBlock<AffixHandle<S::Handle>>, AllocErr>(
                MemoryBlock { handle, size: old_layout.spec_size() },
            ) && post == *self
        } else {
            affix_resize_post::<Pre, Suf, S>(self.inner, handle.inner, old_layout, new_layout, kind, post.inner, r)
                && post.marker == self.marker
        }
    }

    /// Beyond the common guarantees: the library's own refusals, and the
    /// prefix staying at the start of the whole block while the suffix moves
    /// to its new offset.
    fn grow(&mut self, handle: AffixHandle<S::Handle>, old_layout: Layout, new_layout: Layout) -> (r: Result<
        MemoryBlock<AffixHandle<S::Handle>>,
        AllocErr,
    >)
        ensures
            old_layout != new_layout && resize_refused::<Pre, Suf>(old_layout, new_layout, true) ==> r == Err::<
                MemoryBlock<AffixHandle<S::Handle>>,
                AllocErr,
            >(AllocErr(new_layout, ())) && *final(self) == *old(self),
            r is Ok && old_layout != new_layout ==> whole_readable::<Pre, Suf, S>(
                final(self).inner,
                r->Ok_0.handle.inner,
                new_layout,
            ),
            r is Ok && old_layout != new_layout ==> affixes_moved::<Pre, Suf, S>(
                old(self).inner,
                handle.inner,
                old_layout,
                final(self).inner,
                r->Ok_0.handle.inner,
                new_layout,
            ),
    {
        if old_layout == new_layout {
            return Ok(MemoryBlock { handle, size: old_layout.size() });
        }
        self.resize_affixed(handle, old_layout, new_layout, true, false)
    }

    fn grow_zeroed(&mut self, handle: AffixHandle<S::Handle>, old_layout: Layout, new_layout: Layout) -> (r: Result<
        MemoryBlock<AffixHandle<S::Handle>>,
        AllocErr,
    >)
        ensures
            old_layout != new_layout && resize_refused::<Pre, Suf>(old_layout, new_layout, true) ==> r == Err::<
                MemoryBlock<AffixHandle<S::Handle>>,
                AllocErr,
            >(AllocErr(new_layout, ())) && *final(self) == *old(self),
            r is Ok && old_layout != new_layout ==> whole_readable::<Pre, Suf, S>(
                final(self).inner,
                r->Ok_0.handle.inner,
                new_layout,
            ),
            r is Ok && old_layout != new_layout ==> affixes_moved::<Pre, Suf, S>(
                old(self).inner,
                handle.inner,
                old_layout,
                final(self).inner,
                r->Ok_0.handle.inner,
                new_layout,
            ),
    {
        if old_layout == new_layout {
            return Ok(MemoryBlock { handle, size: old_layout.size() });
        }
        self.resize_affixed(handle, old_layout, new_layout, true, true)
    }

    fn shrink(&mut self, handle: AffixHandle<S::Handle>, old_layout: Layout, new_layout: Layout) -> (r: Result<
        MemoryBlock<AffixHandle<S::Handle>>,
        AllocErr,
    >)
        ensures
            old_layout != new_layout && resize_refused::<Pre, Suf>(old_layout, new_layout, false) ==> r == Err::<
                MemoryBlock<AffixHandle<S::Handle>>,
                AllocErr,
            >(AllocErr(new_layout, ())) && *final(self) == *old(self),
            r is Ok && old_layout != new_layout ==> whole_readable::<Pre, Suf, S>(
                final(self).inner,
                r->Ok_0.handle.inner,
                new_layout,
            ),
            r is Ok && old_layout != new_layout ==> affixes_moved::<Pre, Suf, S>(
                old(self).inner,
                handle.inner,
                old_layout,
                final(self).inner,
                r->Ok_0.handle.inner,
                new_layout,
            ),
    {
        if old_layout == new_layout {
            return Ok(MemoryBlock { handle, size: old_layout.size() });
        }
        self.resize_affixed(handle, old_layout, new_layout, false, false)
    }
}

} // verus!
