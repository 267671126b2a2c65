use crate::layout::{is_pow2, Layout, NonEmptyLayout};
use vstd::prelude::*;

verus! {

/// A request that a backend could not satisfy, with the layout that failed and
/// an optional payload handed back to the caller.
#[derive(Debug)]
pub struct AllocErr<T = ()>(pub Layout, pub T);

impl AllocErr {
    /// The error for `layout`, with no payload.
    pub fn new(layout: Layout) -> (r: AllocErr)
        ensures
            r == AllocErr(layout, ()),
    {
        AllocErr(layout, ())
    }

    /// The same error carrying `meta`.
    pub fn with<S>(self, meta: S) -> (r: AllocErr<S>)
        ensures
            r.0 == self.0,
            r.1 == meta,
    {
        AllocErr(self.0, meta)
    }
}

impl<S> AllocErr<S> {
    /// The payload, dropping the layout.
    pub fn defuse(self) -> (r: S)
        ensures
            r == self.1,
    {
        self.1
    }
}

/// The outcome of a non-empty allocation: the handle and the usable size,
/// which is never zero and may exceed the request.
pub struct NonEmptyMemoryBlock<H> {
    pub handle: H,
    pub size: usize,
}

/// The outcome of an allocation: the handle and the usable size.
pub struct MemoryBlock<H> {
    pub handle: H,
    pub size: usize,
}

impl<H: Copy> Clone for NonEmptyMemoryBlock<H> {
    fn clone(&self) -> (r: Self)
        ensures
            r == *self,
    {
        NonEmptyMemoryBlock { handle: self.handle, size: self.size }
    }
}

impl<H: Copy> Copy for NonEmptyMemoryBlock<H> {}

impl<H: Copy> Clone for MemoryBlock<H> {
    fn clone(&self) -> (r: Self)
        ensures
            r == *self,
    {
        MemoryBlock { handle: self.handle, size: self.size }
    }
}

impl<H: Copy> Copy for MemoryBlock<H> {}

/// The plain block for a non-empty one.
pub open spec fn block_of<H>(b: NonEmptyMemoryBlock<H>) -> MemoryBlock<H> {
    MemoryBlock { handle: b.handle, size: b.size }
}

/// The plain result for a non-empty one.
pub open spec fn block_result<H>(r: Result<NonEmptyMemoryBlock<H>, AllocErr>) -> Result<
    MemoryBlock<H>,
    AllocErr,
> {
    match r {
        Ok(b) => Ok(block_of(b)),
        Err(e) => Err(e),
    }
}

impl<H> From<NonEmptyMemoryBlock<H>> for MemoryBlock<H> {
    fn from(memory: NonEmptyMemoryBlock<H>) -> (r: Self) {
        MemoryBlock { handle: memory.handle, size: memory.size }
    }
}

impl<H> vstd::std_specs::convert::FromSpecImpl<NonEmptyMemoryBlock<H>> for MemoryBlock<H> {
    open spec fn obeys_from_spec() -> bool {
        true
    }

    open spec fn from_spec(v: NonEmptyMemoryBlock<H>) -> MemoryBlock<H> {
        block_of(v)
    }
}

/// Converts a non-empty allocation result into a plain one.
pub fn into_block_result<H>(r: Result<NonEmptyMemoryBlock<H>, AllocErr>) -> (out: Result<
    MemoryBlock<H>,
    AllocErr,
>)
    ensures
        out == block_result(r),
{
    match r {
        Ok(b) => Ok(MemoryBlock { handle: b.handle, size: b.size }),
        Err(e) => Err(e),
    }
}

/// Maps the handle of an allocation result, keeping size and error.
pub fn map_mbr<A, B, F: FnOnce(A) -> B>(a: Result<MemoryBlock<A>, AllocErr>, f: F) -> (r: Result<
    MemoryBlock<B>,
    AllocErr,
>)
    requires
        a is Ok ==> call_requires(f, (a->Ok_0.handle,)),
    ensures
        match a {
            Ok(b) => r is Ok && r->Ok_0.size == b.size && call_ensures(f, (b.handle,), r->Ok_0.handle),
            Err(e) => r == Err::<MemoryBlock<B>, AllocErr>(e),
        },
{
    match a {
        Ok(b) => Ok(MemoryBlock { handle: f(b.handle), size: b.size }),
        Err(e) => Err(e),
    }
}

/// Maps the handle of a non-empty allocation result, keeping size and
/// error.
pub fn map_nembr<A, B, F: FnOnce(A) -> B>(a: Result<NonEmptyMemoryBlock<A>, AllocErr>, f: F) -> (r: Result<
    NonEmptyMemoryBlock<B>,
    AllocErr,
>)
    requires
        a is Ok ==> call_requires(f, (a->Ok_0.handle,)),
    ensures
        match a {
            Ok(b) => r is Ok && r->Ok_0.size == b.size && call_ensures(f, (b.handle,), r->Ok_0.handle),
            Err(e) => r == Err::<NonEmptyMemoryBlock<B>, AllocErr>(e),
        },
{
    match a {
        Ok(b) => Ok(NonEmptyMemoryBlock { handle: f(b.handle), size: b.size }),
        Err(e) => Err(e),
    }
}

/// An opaque, copyable allocation identity with a sentinel for zero-sized
/// allocations.
pub trait Handle: Copy + Sized {
    /// The sentinel for zero-sized allocations of alignment `align`.
    spec fn spec_dangling(align: usize) -> Self;

    /// The sentinel handle; it addresses no bytes and is never deallocated.
    fn dangling(align: usize) -> (r: Self)
        requires
            is_pow2(align as int),
        ensures
            r == Self::spec_dangling(align),
    ;
}

/// A backend that hands out allocations for layouts and addresses them by
/// handles.
///
/// Its bytes are `mem()`; a handle's first byte sits at `addr(handle)`, and
/// `in_bounds(handle, i)` tells whether the `i`-th byte from it is readable.
/// Allocating or deallocating never changes a byte, nor where any handle
/// points: no allocation invalidates a handle issued before it.
pub trait Storage: Sized {
    type Handle: Handle;

    /// The backend's internal invariant.
    spec fn wf(&self) -> bool;

    /// The bytes the backend exposes.
    spec fn mem(&self) -> Seq<u8>;

    /// Where `handle`'s first byte sits in `mem()`.
    spec fn addr(&self, handle: Self::Handle) -> int;

    /// Whether the `index`-th byte from `handle` can be read or written.
    spec fn in_bounds(&self, handle: Self::Handle, index: int) -> bool;

    /// `other` is this backend with possibly other byte contents: everything
    /// that decides allocations is the same.
    spec fn same_state(&self, other: Self) -> bool;

    /// Every state is the same as itself.
    proof fn lemma_same_state_refl(&self)
        ensures
            self.same_state(*self),
    ;

    /// Being the same state carries over.
    proof fn lemma_same_state_trans(&self, b: Self, c: Self)
        requires
            self.same_state(b),
            b.same_state(c),
        ensures
            self.same_state(c),
    ;

    /// What a non-empty allocation of `layout` does: from `self` to `post`,
    /// returning `r`.
    spec fn allocate_post(
        &self,
        layout: NonEmptyLayout,
        post: Self,
        r: Result<NonEmptyMemoryBlock<Self::Handle>, AllocErr>,
    ) -> bool;

    /// What deallocating `handle` with `layout` does.
    spec fn deallocate_post(&self, handle: Self::Handle, layout: NonEmptyLayout, post: Self) -> bool;

    /// What an allocation of a possibly empty `layout` does.
    spec fn allocate_any_post(
        &self,
        layout: Layout,
        post: Self,
        r: Result<MemoryBlock<Self::Handle>, AllocErr>,
    ) -> bool;

    /// What deallocating a possibly empty `layout` does.
    spec fn deallocate_any_post(&self, handle: Self::Handle, layout: Layout, post: Self) -> bool;

    /// An allocation, whatever its outcome, leaves every byte and the
    /// addressing of every handle as they were.
    proof fn lemma_allocate_keeps(
        &self,
        layout: NonEmptyLayout,
        post: Self,
        r: Result<NonEmptyMemoryBlock<Self::Handle>, AllocErr>,
    )
        requires
            self.wf(),
            self.allocate_post(layout, post, r),
        ensures
            post.mem() == self.mem(),
            forall|h: Self::Handle| #[trigger] post.addr(h) == self.addr(h),
            forall|h: Self::Handle, i: int| #[trigger] post.in_bounds(h, i) == self.in_bounds(h, i),
    ;

    /// A readable byte lies inside `mem()`.
    proof fn lemma_in_bounds(&self, handle: Self::Handle, index: int)
        requires
            self.wf(),
            self.in_bounds(handle, index),
        ensures
            0 <= self.addr(handle) + index < self.mem().len(),
    ;

    /// Reads the `index`-th byte from `handle`; `None` when out of bounds.
    fn get(&self, handle: Self::Handle, index: usize) -> (r: Option<u8>)
        requires
            self.wf(),
        ensures
            r == (if self.in_bounds(handle, index as int) {
                Some(self.mem()[self.addr(handle) + index])
            } else {
                None
            }),
    ;

    /// Writes the `index`-th byte from `handle`; `false`, with nothing
    /// written, when out of bounds.
    fn get_mut(&mut self, handle: Self::Handle, index: usize, value: u8) -> (r: bool)
        requires
            old(self).wf(),
        ensures
            final(self).wf(),
            old(self).same_state(*final(self)),
            r == old(self).in_bounds(handle, index as int),
            final(self).mem() == (if r {
                old(self).mem().update(old(self).addr(handle) + index, value)
            } else {
                old(self).mem()
            }),
            forall|h: Self::Handle| #[trigger] final(self).addr(h) == old(self).addr(h),
            forall|h: Self::Handle, i: int| #[trigger] final(self).in_bounds(h, i) == old(self).in_bounds(h, i),
    ;

    /// Allocates a block for `layout`, leaving every byte where it was.
    fn allocate_nonempty(&mut self, layout: NonEmptyLayout) -> (r: Result<
        NonEmptyMemoryBlock<Self::Handle>,
        AllocErr,
    >)
        requires
            old(self).wf(),
        ensures
            final(self).wf(),
            old(self).allocate_post(layout, *final(self), r),
            final(self).mem() == old(self).mem(),
            forall|h: Self::Handle| #[trigger] final(self).addr(h) == old(self).addr(h),
            forall|h: Self::Handle, i: int| #[trigger] final(self).in_bounds(h, i) == old(self).in_bounds(h, i),
            r is Ok ==> r->Ok_0.size >= layout.spec_size(),
            r is Ok ==> forall|i: int|
                0 <= i < r->Ok_0.size ==> #[trigger] final(self).in_bounds(r->Ok_0.handle, i),
    ;

    /// Gives back a block allocated with `layout`.
    fn deallocate_nonempty(&mut self, handle: Self::Handle, layout: NonEmptyLayout)
        requires
            old(self).wf(),
        ensures
            final(self).wf(),
            old(self).deallocate_post(handle, layout, *final(self)),
            final(self).mem() == old(self).mem(),
            forall|h: Self::Handle| #[trigger] final(self).addr(h) == old(self).addr(h),
            forall|h: Self::Handle, i: int| #[trigger] final(self).in_bounds(h, i) == old(self).in_bounds(h, i),
    ;

    /// Allocates a block for a possibly empty `layout`.
    fn allocate(&mut self, layout: Layout) -> (r: Result<MemoryBlock<Self::Handle>, AllocErr>)
        requires
            old(self).wf(),
        ensures
            final(self).wf(),
            old(self).allocate_any_post(layout, *final(self), r),
            final(self).mem() == old(self).mem(),
            forall|h: Self::Handle| #[trigger] final(self).addr(h) == old(self).addr(h),
            forall|h: Self::Handle, i: int| #[trigger] final(self).in_bounds(h, i) == old(self).in_bounds(h, i),
            r is Ok ==> r->Ok_0.size >= layout.spec_size(),
            r is Ok ==> forall|i: int|
                0 <= i < r->Ok_0.size ==> #[trigger] final(self).in_bounds(r->Ok_0.handle, i),
    ;

    /// Gives back a block allocated with a possibly empty `layout`.
    fn deallocate(&mut self, handle: Self::Handle, layout: Layout)
        requires
            old(self).wf(),
        ensures
            final(self).wf(),
            old(self).deallocate_any_post(handle, layout, *final(self)),
            final(self).mem() == old(self).mem(),
            forall|h: Self::Handle| #[trigger] final(self).addr(h) == old(self).addr(h),
            forall|h: Self::Handle, i: int| #[trigger] final(self).in_bounds(h, i) == old(self).in_bounds(h, i),
    ;
}

/// A backend whose handles can be shifted by a signed number of bytes.
pub trait OffsetHandle: Storage {
    /// The handle `offset` bytes away from `handle`.
    spec fn spec_offset(&self, handle: Self::Handle, offset: isize) -> Self::Handle;

    /// Shifting `handle` by `offset` stays within what the handle can express.
    spec fn offset_ok(&self, handle: Self::Handle, offset: isize) -> bool;

    /// Shifting moves the address by exactly `offset` when it stays within
    /// range, and shifting back undoes it.
    proof fn lemma_offset(&self, handle: Self::Handle, offset: isize)
        requires
            self.wf(),
        ensures
            self.offset_ok(handle, offset) ==> self.addr(self.spec_offset(handle, offset))
                == self.addr(handle) + offset,
            offset > isize::MIN ==> self.spec_offset(
                self.spec_offset(handle, offset),
                (-offset) as isize,
            ) == handle,
            self.in_bounds(handle, offset as int) ==> self.offset_ok(handle, offset),
            self.offset_ok(handle, offset) ==> forall|i: int|
                #[trigger] self.in_bounds(self.spec_offset(handle, offset), i) == self.in_bounds(
                    handle,
                    offset + i,
                ),
    ;

    /// The handle `offset` bytes away from `handle`.
    fn offset(&self, handle: Self::Handle, offset: isize) -> (r: Self::Handle)
        requires
            self.wf(),
        ensures
            r == self.spec_offset(handle, offset),
    ;

    /// The handle `offset` bytes away from `handle`; `None` when the shift
    /// leaves what the handle can express.
    fn checked_offset(&self, handle: Self::Handle, offset: isize) -> (r: Option<Self::Handle>)
        requires
            self.wf(),
        ensures
            r is Some <==> self.offset_ok(handle, offset),
            r is Some ==> r->0 == self.spec_offset(handle, offset),
    ;
}

/// The result of allocating an empty layout: the dangling handle, no bytes.
pub open spec fn dangling_block<H: Handle>(layout: Layout) -> Result<MemoryBlock<H>, AllocErr> {
    Ok(MemoryBlock { handle: H::spec_dangling(layout.spec_align()), size: 0 })
}

/// The dangling block for an empty layout.
pub fn empty_block<H: Handle>(layout: Layout) -> (r: Result<MemoryBlock<H>, AllocErr>)
    ensures
        r == dangling_block::<H>(layout),
{
    let align = layout.align();
    Ok(MemoryBlock { handle: H::dangling(align), size: 0 })
}

/// Two states of a backend address every handle the same way.
pub open spec fn same_addressing<S: Storage>(a: S, b: S) -> bool {
    &&& forall|h: S::Handle| #[trigger] b.addr(h) == a.addr(h)
    &&& forall|h: S::Handle, i: int| #[trigger] b.in_bounds(h, i) == a.in_bounds(h, i)
    &&& b.mem().len() == a.mem().len()
}

/// The first `n` bytes from `h` in `pre` are the first `n` bytes from `h2`
/// in `post`, wherever both are readable.
pub open spec fn bytes_kept<S: Storage>(pre: S, h: S::Handle, post: S, h2: S::Handle, n: int) -> bool {
    forall|i: int|
        0 <= i < n && #[trigger] pre.in_bounds(h, i) && post.in_bounds(h2, i) ==> post.mem()[post.addr(h2)
            + i] == pre.mem()[pre.addr(h) + i]
}

/// The first `n` bytes from `h` are all readable.
pub open spec fn block_readable<S: Storage>(s: S, h: S::Handle, n: int) -> bool {
    forall|i: int| 0 <= i < n ==> #[trigger] s.in_bounds(h, i)
}

/// Every readable byte in `[from, to)` from `h` is zero.
pub open spec fn bytes_zero<S: Storage>(s: S, h: S::Handle, from: int, to: int) -> bool {
    forall|i: int| from <= i < to && #[trigger] s.in_bounds(h, i) ==> s.mem()[s.addr(h) + i] == 0
}

/// Addressing the same way is transitive.
pub proof fn lemma_same_addressing_trans<S: Storage>(a: S, b: S, c: S)
    requires
        same_addressing(a, b),
        same_addressing(b, c),
    ensures
        same_addressing(a, c),
{
    assert forall|h: S::Handle| #[trigger] c.addr(h) == a.addr(h) by {
        assert(c.addr(h) == b.addr(h));
        assert(b.addr(h) == a.addr(h));
    }
    assert forall|h: S::Handle, i: int| #[trigger] c.in_bounds(h, i) == a.in_bounds(h, i) by {
        assert(c.in_bounds(h, i) == b.in_bounds(h, i));
        assert(b.in_bounds(h, i) == a.in_bounds(h, i));
    }
}

/// No allocation invalidates a handle issued before it: after any
/// allocation, every handle reads the same bytes as before.
pub proof fn lemma_handle_stability<S: Storage>(
    before: S,
    layout: NonEmptyLayout,
    after: S,
    r: Result<NonEmptyMemoryBlock<S::Handle>, AllocErr>,
    handle: S::Handle,
    index: int,
)
    requires
        before.wf(),
        before.allocate_post(layout, after, r),
    ensures
        after.in_bounds(handle, index) == before.in_bounds(handle, index),
        before.in_bounds(handle, index) ==> after.mem()[after.addr(handle) + index] == before.mem()[before.addr(
            handle,
        ) + index],
{
    before.lemma_allocate_keeps(layout, after, r);
}

/// Whether the first `n` bytes from `handle` are all readable.
pub fn reachable<S: Storage>(storage: &S, handle: S::Handle, n: usize) -> (r: bool)
    requires
        storage.wf(),
    ensures
        r == block_readable(*storage, handle, n as int),
{
    let mut i: usize = 0;
    while i < n
        invariant
            storage.wf(),
            i <= n,
            block_readable(*storage, handle, i as int),
        decreases n - i,
    {
        if storage.get(handle, i).is_none() {
            return false;
        }
        i = i + 1;
    }
    true
}

/// A later state with the same bytes and addressing keeps what was kept,
/// zeroed or readable.
pub proof fn lemma_bytes_through<S: Storage>(pre: S, h: S::Handle, mid: S, post: S, h2: S::Handle, n: int, from: int, to: int, m: int)
    requires
        mid.mem() == post.mem(),
        same_addressing(mid, post),
    ensures
        bytes_kept(pre, h, mid, h2, n) ==> bytes_kept(pre, h, post, h2, n),
        bytes_zero(mid, h2, from, to) ==> bytes_zero(post, h2, from, to),
        block_readable(mid, h2, m) ==> block_readable(post, h2, m),
{
    if bytes_kept(pre, h, mid, h2, n) {
        assert forall|i: int|
            0 <= i < n && #[trigger] pre.in_bounds(h, i) && post.in_bounds(h2, i) implies post.mem()[post.addr(h2)
            + i] == pre.mem()[pre.addr(h) + i] by {
            assert(mid.in_bounds(h2, i));
        }
    }
    if bytes_zero(mid, h2, from, to) {
        assert forall|i: int| from <= i < to && #[trigger] post.in_bounds(h2, i) implies post.mem()[post.addr(h2) + i] == 0 by {
            assert(mid.in_bounds(h2, i));
        }
    }
    if block_readable(mid, h2, m) {
        assert forall|i: int| 0 <= i < m implies #[trigger] post.in_bounds(h2, i) by {
            assert(mid.in_bounds(h2, i));
        }
    }
}

/// A readable byte outside a zeroed run keeps its value.
pub proof fn lemma_outside_run<S: Storage>(mid: S, post: S, h: S::Handle, from: int, to: int, i: int)
    requires
        mid.wf(),
        mid.in_bounds(h, i),
        !(from <= i < to),
        forall|a: int|
            0 <= a < mid.mem().len() && !in_run(mid, h, from, to - from, a) ==> #[trigger] post.mem()[a]
                == mid.mem()[a],
    ensures
        post.mem()[mid.addr(h) + i] == mid.mem()[mid.addr(h) + i],
{
    mid.lemma_in_bounds(h, i);
    let a = mid.addr(h) + i;
    if in_run(mid, h, from, to - from, a) {
        let k = choose|k: int| 0 <= k < to - from && #[trigger] run_byte(mid, h, from, k, a);
        assert(false);
    }
}

/// Reads the `n` bytes at `from` past `handle`; a byte that cannot be read
/// comes back as `None`.
pub fn read_run<S: Storage>(storage: &S, handle: S::Handle, from: usize, n: usize) -> (buf: Vec<Option<u8>>)
    requires
        storage.wf(),
        from + n <= usize::MAX,
    ensures
        buf@.len() == n,
        forall|k: int|
            0 <= k < n ==> #[trigger] buf@[k] == (if storage.in_bounds(handle, from + k) {
                Some(storage.mem()[storage.addr(handle) + from + k])
            } else {
                None
            }),
{
    let mut buf: Vec<Option<u8>> = Vec::new();
    let mut i: usize = 0;
    while i < n
        invariant
            storage.wf(),
            i <= n,
            from + n <= usize::MAX,
            buf@.len() == i,
            forall|k: int|
                0 <= k < i ==> #[trigger] buf@[k] == (if storage.in_bounds(handle, from + k) {
                    Some(storage.mem()[storage.addr(handle) + from + k])
                } else {
                    None
                }),
        decreases n - i,
    {
        let v = storage.get(handle, from + i);
        buf.push(v);
        i = i + 1;
    }
    buf
}

/// Writes the bytes of `buf` that are there at `to` past `handle`, where
/// they are in bounds; no other byte changes.
pub fn write_run<S: Storage>(storage: &mut S, handle: S::Handle, to: usize, buf: &Vec<Option<u8>>)
    requires
        old(storage).wf(),
        to + buf@.len() <= usize::MAX,
    ensures
        final(storage).wf(),
        old(storage).same_state(*final(storage)),
        same_addressing(*old(storage), *final(storage)),
        forall|k: int|
            0 <= k < buf@.len() && #[trigger] buf@[k] is Some && final(storage).in_bounds(handle, to + k)
                ==> final(storage).mem()[final(storage).addr(handle) + to + k] == buf@[k]->0,
        forall|a: int|
            0 <= a < old(storage).mem().len() && !in_run(*old(storage), handle, to as int, buf@.len() as int, a)
                ==> #[trigger] final(storage).mem()[a] == old(storage).mem()[a],
{
    proof {
        old(storage).lemma_same_state_refl();
    }
    let n = buf.len();
    let mut j: usize = 0;
    while j < n
        invariant
            storage.wf(),
            j <= n,
            n == buf@.len(),
            to + n <= usize::MAX,
            old(storage).same_state(*storage),
            same_addressing(*old(storage), *storage),
            forall|k: int|
                0 <= k < j && #[trigger] buf@[k] is Some && storage.in_bounds(handle, to + k)
                    ==> storage.mem()[storage.addr(handle) + to + k] == buf@[k]->0,
            forall|a: int|
                0 <= a < old(storage).mem().len() && !in_run(*old(storage), handle, to as int, j as int, a)
                    ==> #[trigger] storage.mem()[a] == old(storage).mem()[a],
        decreases n - j,
    {
        let ghost before = *storage;
        let mut written = false;
        match buf[j] {
            Some(v) => {
                written = storage.get_mut(handle, to + j, v);
            },
            None => {},
        }
        proof {
            if written {
                before.lemma_in_bounds(handle, to + j);
            }
            if *storage == before {
                before.lemma_same_state_refl();
            }
            old(storage).lemma_same_state_trans(before, *storage);
            lemma_same_addressing_trans(*old(storage), before, *storage);
            assert forall|k: int|
                0 <= k < j + 1 && #[trigger] buf@[k] is Some && storage.in_bounds(handle, to + k)
                    implies storage.mem()[storage.addr(handle) + to + k] == buf@[k]->0 by {
                if k < j && written {
                    before.lemma_in_bounds(handle, to + k);
                }
            }
            assert forall|a: int|
                0 <= a < old(storage).mem().len() && !in_run(*old(storage), handle, to as int, j + 1, a)
                    implies #[trigger] storage.mem()[a] == old(storage).mem()[a] by {
                if in_run(*old(storage), handle, to as int, j as int, a) {
                    let k = choose|k: int| 0 <= k < j && #[trigger] run_byte(*old(storage), handle, to as int, k, a);
                    assert(0 <= k < j + 1 && run_byte(*old(storage), handle, to as int, k, a));
                }
                if written {
                    assert(!run_byte(*old(storage), handle, to as int, j as int, a));
                }
            }
        }
        j = j + 1;
    }
}

/// Writes zeros over the bytes `from..to` past `handle`, where they are in
/// bounds; no other byte changes.
pub fn zero_range<S: Storage>(storage: &mut S, handle: S::Handle, from: usize, to: usize)
    requires
        old(storage).wf(),
        from <= to,
    ensures
        final(storage).wf(),
        old(storage).same_state(*final(storage)),
        same_addressing(*old(storage), *final(storage)),
        bytes_zero(*final(storage), handle, from as int, to as int),
        forall|a: int|
            0 <= a < old(storage).mem().len() && !in_run(*old(storage), handle, from as int, to - from, a)
                ==> #[trigger] final(storage).mem()[a] == old(storage).mem()[a],
{
    proof {
        old(storage).lemma_same_state_refl();
    }
    let mut i: usize = from;
    while i < to
        invariant
            storage.wf(),
            from <= i <= to,
            old(storage).same_state(*storage),
            same_addressing(*old(storage), *storage),
            bytes_zero(*storage, handle, from as int, i as int),
            forall|a: int|
                0 <= a < old(storage).mem().len() && !in_run(*old(storage), handle, from as int, i - from, a)
                    ==> #[trigger] storage.mem()[a] == old(storage).mem()[a],
        decreases to - i,
    {
        let ghost before = *storage;
        let written = storage.get_mut(handle, i, 0);
        proof {
            if written {
                before.lemma_in_bounds(handle, i as int);
            }
            old(storage).lemma_same_state_trans(before, *storage);
            lemma_same_addressing_trans(*old(storage), before, *storage);
            assert forall|k: int| from <= k < i + 1 && #[trigger] storage.in_bounds(handle, k) implies storage.mem()[storage.addr(
                handle,
            ) + k] == 0 by {
                if k < i && written {
                    before.lemma_in_bounds(handle, k);
                }
            }
            assert forall|a: int|
                0 <= a < old(storage).mem().len() && !in_run(*old(storage), handle, from as int, i + 1 - from, a)
                    implies #[trigger] storage.mem()[a] == old(storage).mem()[a] by {
                if in_run(*old(storage), handle, from as int, i - from, a) {
                    let k = choose|k: int| 0 <= k < i - from && #[trigger] run_byte(*old(storage), handle, from as int, k, a);
                    assert(0 <= k < i + 1 - from && run_byte(*old(storage), handle, from as int, k, a));
                }
                if written {
                    assert(!run_byte(*old(storage), handle, from as int, i - from, a));
                }
            }
        }
        i = i + 1;
    }
}

/// Writes `value` over the first `value.len()` bytes from `handle`, where
/// they are in bounds.
pub fn write_bytes<S: Storage>(storage: &mut S, handle: S::Handle, value: &[u8])
    requires
        old(storage).wf(),
    ensures
        final(storage).wf(),
        old(storage).same_state(*final(storage)),
        same_addressing(*old(storage), *final(storage)),
        forall|i: int|
            0 <= i < value@.len() && #[trigger] final(storage).in_bounds(handle, i)
                ==> final(storage).mem()[final(storage).addr(handle) + i] == value@[i],
{
    proof {
        old(storage).lemma_same_state_refl();
    }
    let n = value.len();
    let mut i: usize = 0;
    while i < n
        invariant
            storage.wf(),
            i <= n,
            n == value@.len(),
            old(storage).same_state(*storage),
            same_addressing(*old(storage), *storage),
            forall|k: int|
                0 <= k < i && #[trigger] storage.in_bounds(handle, k) ==> storage.mem()[storage.addr(handle) + k]
                    == value@[k],
        decreases n - i,
    {
        let ghost before = *storage;
        let written = storage.get_mut(handle, i, value[i]);
        proof {
            if written {
                before.lemma_in_bounds(handle, i as int);
            }
            old(storage).lemma_same_state_trans(before, *storage);
            lemma_same_addressing_trans(*old(storage), before, *storage);
            assert forall|k: int|
                0 <= k < i + 1 && #[trigger] storage.in_bounds(handle, k) implies storage.mem()[storage.addr(handle)
                + k] == value@[k] by {
                if written && k < i {
                    before.lemma_in_bounds(handle, k);
                }
            }
        }
        i = i + 1;
    }
}

/// The byte `from + k` past `h` in `pre` is the byte `to + k` past `h2` in
/// `post`, where both are readable.
pub open spec fn moved_at<S: Storage>(pre: S, h: S::Handle, from: int, post: S, h2: S::Handle, to: int, k: int) -> bool {
    pre.in_bounds(h, from + k) && post.in_bounds(h2, to + k) ==> post.mem()[post.addr(h2) + to + k]
        == pre.mem()[pre.addr(h) + from + k]
}

/// Address `a` is the readable byte `to + k` past `h`.
pub open spec fn run_byte<S: Storage>(s: S, h: S::Handle, to: int, k: int, a: int) -> bool {
    s.in_bounds(h, to + k) && a == s.addr(h) + to + k
}

/// Address `a` is the byte `to + k` past `h`, for some `k < n`.
pub open spec fn in_run<S: Storage>(s: S, h: S::Handle, to: int, n: int, a: int) -> bool {
    exists|k: int| 0 <= k < n && #[trigger] run_byte(s, h, to, k, a)
}

/// Copies the `n` bytes at `from` past `handle` to `to` past it, as if
/// through a buffer, so the two runs may overlap; no other byte changes.
pub fn move_bytes<S: Storage>(storage: &mut S, handle: S::Handle, from: usize, to: usize, n: usize)
    requires
        old(storage).wf(),
        from + n <= usize::MAX,
        to + n <= usize::MAX,
    ensures
        final(storage).wf(),
        old(storage).same_state(*final(storage)),
        same_addressing(*old(storage), *final(storage)),
        forall|k: int| 0 <= k < n ==> #[trigger] moved_at(*old(storage), handle, from as int, *final(storage), handle, to as int, k),
        forall|a: int|
            0 <= a < old(storage).mem().len() && !in_run(*old(storage), handle, to as int, n as int, a)
                ==> #[trigger] final(storage).mem()[a] == old(storage).mem()[a],
{
    let mut buf: Vec<Option<u8>> = Vec::new();
    let mut i: usize = 0;
    while i < n
        invariant
            storage.wf(),
            *storage == *old(storage),
            i <= n,
            from + n <= usize::MAX,
            buf@.len() == i,
            forall|k: int|
                0 <= k < i ==> #[trigger] buf@[k] == (if old(storage).in_bounds(handle, from + k) {
                    Some(old(storage).mem()[old(storage).addr(handle) + from + k])
                } else {
                    None
                }),
        decreases n - i,
    {
        let v = storage.get(handle, from + i);
        buf.push(v);
        i = i + 1;
    }
    proof {
        old(storage).lemma_same_state_refl();
    }
    let mut j: usize = 0;
    while j < n
        invariant
            storage.wf(),
            old(storage).same_state(*storage),
            j <= n,
            to + n <= usize::MAX,
            buf@.len() == n,
            same_addressing(*old(storage), *storage),
            forall|k: int|
                0 <= k < n ==> #[trigger] buf@[k] == (if old(storage).in_bounds(handle, from + k) {
                    Some(old(storage).mem()[old(storage).addr(handle) + from + k])
                } else {
                    None
                }),
            forall|k: int|
                0 <= k < j ==> #[trigger] moved_at(*old(storage), handle, from as int, *storage, handle, to as int, k),
            forall|a: int|
                0 <= a < old(storage).mem().len() && !in_run(*old(storage), handle, to as int, j as int, a)
                    ==> #[trigger] storage.mem()[a] == old(storage).mem()[a],
        decreases n - j,
    {
        let ghost before = *storage;
        let mut written = false;
        match buf[j] {
            Some(v) => {
                written = storage.get_mut(handle, to + j, v);
            },
            None => {},
        }
        proof {
            if written {
                before.lemma_in_bounds(handle, to + j);
            }
            lemma_same_addressing_trans(*old(storage), before, *storage);
            if *storage == before {
                before.lemma_same_state_refl();
            }
            old(storage).lemma_same_state_trans(before, *storage);
            assert forall|k: int| 0 <= k < j + 1 implies #[trigger] moved_at(
                *old(storage),
                handle,
                from as int,
                *storage,
                handle,
                to as int,
                k,
            ) by {
                if k < j {
                    assert(moved_at(*old(storage), handle, from as int, before, handle, to as int, k));
                    if written && old(storage).in_bounds(handle, from + k) && storage.in_bounds(handle, to + k) {
                        before.lemma_in_bounds(handle, to + k);
                    }
                } else {
                    if old(storage).in_bounds(handle, from + k) && storage.in_bounds(handle, to + k) {
                        assert(buf@[k] is Some);
                        assert(written);
                        before.lemma_in_bounds(handle, to + k);
                    }
                }
            }
            assert forall|a: int|
                0 <= a < old(storage).mem().len() && !in_run(*old(storage), handle, to as int, j + 1, a)
                    implies #[trigger] storage.mem()[a] == old(storage).mem()[a] by {
                if in_run(*old(storage), handle, to as int, j as int, a) {
                    let k = choose|k: int| 0 <= k < j && #[trigger] run_byte(*old(storage), handle, to as int, k, a);
                    assert(0 <= k < j + 1 && run_byte(*old(storage), handle, to as int, k, a));
                }
                if written {
                    assert(!run_byte(*old(storage), handle, to as int, j as int, a));
                }
            }
        }
        j = j + 1;
    }
}

/// Allocates a possibly empty layout and fills the block with zeros.
pub fn allocate_zeroed<S: Storage>(storage: &mut S, layout: Layout) -> (r: Result<
    MemoryBlock<S::Handle>,
    AllocErr,
>)
    requires
        old(storage).wf(),
    ensures
        final(storage).wf(),
        same_addressing(*old(storage), *final(storage)),
        r is Err ==> old(storage).allocate_any_post(layout, *final(storage), r),
        r is Ok ==> exists|mid: S|
            #[trigger] old(storage).allocate_any_post(layout, mid, r) && mid.same_state(*final(storage)),
        r is Ok ==> r->Ok_0.size >= layout.spec_size() && bytes_zero(
            *final(storage),
            r->Ok_0.handle,
            0,
            r->Ok_0.size as int,
        ),
        r is Ok ==> forall|i: int|
            0 <= i < r->Ok_0.size ==> #[trigger] final(storage).in_bounds(r->Ok_0.handle, i),
        r is Ok ==> forall|a: int|
            0 <= a < old(storage).mem().len() && !in_run(*old(storage), r->Ok_0.handle, 0, r->Ok_0.size as int, a)
                ==> #[trigger] final(storage).mem()[a] == old(storage).mem()[a],
        r is Err ==> final(storage).mem() == old(storage).mem(),
{
    let r = storage.allocate(layout);
    match r {
        Ok(b) => {
            let ghost mid = *storage;
            zero_range(storage, b.handle, 0, b.size);
            proof {
                assert(old(storage).allocate_any_post(layout, mid, r) && mid.same_state(*storage));
                assert forall|a: int|
                    0 <= a < old(storage).mem().len() && !in_run(*old(storage), b.handle, 0, b.size as int, a)
                        implies #[trigger] storage.mem()[a] == old(storage).mem()[a] by {
                    if in_run(mid, b.handle, 0, b.size as int, a) {
                        let k = choose|k: int| 0 <= k < b.size && #[trigger] run_byte(mid, b.handle, 0, k, a);
                        assert(run_byte(*old(storage), b.handle, 0, k, a));
                    }
                }
            }
            Ok(b)
        },
        Err(e) => Err(e),
    }
}

/// What moving a block the general way does: a failed allocation of the new
/// layout is the outcome, with nothing given back; otherwise the new block,
/// whose bytes are then written, and the old block given back.
pub open spec fn moved_post<S: Storage>(
    pre: S,
    handle: S::Handle,
    old_layout: Layout,
    new_layout: Layout,
    post: S,
    r: Result<MemoryBlock<S::Handle>, AllocErr>,
) -> bool {
    &&& r is Err ==> pre.allocate_any_post(new_layout, post, r)
    &&& r is Ok ==> exists|mid: S, copied: S|
        #![trigger pre.allocate_any_post(new_layout, mid, r), mid.same_state(copied)]
        pre.allocate_any_post(new_layout, mid, r) && mid.same_state(copied) && copied.deallocate_any_post(
            handle,
            old_layout,
            post,
        )
}

/// The three ways a block is resized.
#[derive(Clone, Copy, PartialEq, Eq, Structural, Debug)]
pub enum Resize {
    Grow,
    GrowZeroed,
    Shrink,
}

/// Moves a block to a new layout the general way: allocate the new block,
/// copy the first `keep` bytes across, give back the old one.
pub fn move_block<S: Storage>(
    storage: &mut S,
    handle: S::Handle,
    old_layout: Layout,
    new_layout: Layout,
    keep: usize,
    zeroed: bool,
) -> (r: Result<MemoryBlock<S::Handle>, AllocErr>)
    requires
        old(storage).wf(),
    ensures
        final(storage).wf(),
        same_addressing(*old(storage), *final(storage)),
        r is Ok ==> r->Ok_0.size >= new_layout.spec_size(),
        r is Ok ==> bytes_kept(*old(storage), handle, *final(storage), r->Ok_0.handle, keep as int),
        r is Ok && zeroed ==> bytes_zero(
            *final(storage),
            r->Ok_0.handle,
            keep as int,
            r->Ok_0.size as int,
        ),
        r is Ok ==> forall|i: int|
            0 <= i < r->Ok_0.size ==> #[trigger] final(storage).in_bounds(r->Ok_0.handle, i),
        r is Err ==> final(storage).mem() == old(storage).mem(),
        moved_post(*old(storage), handle, old_layout, new_layout, *final(storage), r),
{
    let mut buf: Vec<Option<u8>> = Vec::new();
    let mut i: usize = 0;
    while i < keep
        invariant
            storage.wf(),
            *storage == *old(storage),
            i <= keep,
            buf@.len() == i,
            forall|k: int|
                0 <= k < i ==> #[trigger] buf@[k] == (if old(storage).in_bounds(handle, k) {
                    Some(old(storage).mem()[old(storage).addr(handle) + k])
                } else {
                    None
                }),
        decreases keep - i,
    {
        let v = storage.get(handle, i);
        buf.push(v);
        i = i + 1;
    }
    let b = if zeroed {
        allocate_zeroed(storage, new_layout)
    } else {
        storage.allocate(new_layout)
    };
    let ghost allocated = b;
    let b = match b {
        Ok(b) => b,
        Err(e) => return Err(e),
    };
    let ghost fresh = *storage;
    proof {
        fresh.lemma_same_state_refl();
    }
    let mut j: usize = 0;
    while j < keep
        invariant
            storage.wf(),
            j <= keep,
            buf@.len() == keep,
            same_addressing(*old(storage), *storage),
            forall|k: int|
                0 <= k < keep ==> #[trigger] buf@[k] == (if old(storage).in_bounds(handle, k) {
                    Some(old(storage).mem()[old(storage).addr(handle) + k])
                } else {
                    None
                }),
            forall|k: int|
                0 <= k < j && #[trigger] storage.in_bounds(b.handle, k) && buf@[k] is Some
                    ==> storage.mem()[storage.addr(b.handle) + k] == buf@[k]->0,
            zeroed ==> bytes_zero(*storage, b.handle, keep as int, b.size as int),
            fresh.same_state(*storage),
            same_addressing(fresh, *storage),
        decreases keep - j,
    {
        let ghost before = *storage;
        match buf[j] {
            Some(v) => {
                let written = storage.get_mut(b.handle, j, v);
                proof {
                    if written {
                        before.lemma_in_bounds(b.handle, j as int);
                    }
                    lemma_same_addressing_trans(*old(storage), before, *storage);
                    lemma_same_addressing_trans(fresh, before, *storage);
                    fresh.lemma_same_state_trans(before, *storage);
                    assert forall|k: int|
                        0 <= k < j + 1 && #[trigger] storage.in_bounds(b.handle, k) && buf@[k] is Some
                            implies storage.mem()[storage.addr(b.handle) + k] == buf@[k]->0 by {
                        if written {
                            before.lemma_in_bounds(b.handle, k);
                            before.lemma_in_bounds(b.handle, j as int);
                        }
                    }
                    assert forall|k: int|
                        zeroed && keep <= k < b.size && #[trigger] storage.in_bounds(b.handle, k) implies storage.mem()[storage.addr(
                            b.handle,
                        ) + k] == 0 by {
                        if zeroed {
                            assert(before.in_bounds(b.handle, k));
                            assert(before.mem()[before.addr(b.handle) + k] == 0);
                            if written {
                                before.lemma_in_bounds(b.handle, k);
                                before.lemma_in_bounds(b.handle, j as int);
                            }
                        }
                    }
                }
            },
            None => {},
        }
        j = j + 1;
    }
    let ghost copied = *storage;
    storage.deallocate(handle, old_layout);
    proof {
        assert forall|k: int|
            0 <= k < keep && #[trigger] old(storage).in_bounds(handle, k) && storage.in_bounds(b.handle, k)
                implies storage.mem()[storage.addr(b.handle) + k] == old(storage).mem()[old(storage).addr(handle) + k] by {
            assert(buf@[k] is Some);
            assert(copied.in_bounds(b.handle, k));
            assert(copied.mem()[copied.addr(b.handle) + k] == buf@[k]->0);
            assert(storage.addr(b.handle) == copied.addr(b.handle));
        }
        assert forall|i: int| 0 <= i < b.size implies #[trigger] storage.in_bounds(b.handle, i) by {
            assert(fresh.in_bounds(b.handle, i));
        }
        if zeroed {
            let mid = choose|mid: S|
                #[trigger] old(storage).allocate_any_post(new_layout, mid, allocated) && mid.same_state(fresh);
            mid.lemma_same_state_trans(fresh, copied);
            assert(old(storage).allocate_any_post(new_layout, mid, allocated) && mid.same_state(copied)
                && copied.deallocate_any_post(handle, old_layout, *storage));
        } else {
            assert(old(storage).allocate_any_post(new_layout, fresh, allocated) && fresh.same_state(copied)
                && copied.deallocate_any_post(handle, old_layout, *storage));
        }
    }
    Ok(b)
}

/// A backend whose blocks can change size in place or by moving.
pub trait ResizableStorage: Storage {
    /// What resizing the block at `handle` from `old_layout` to `new_layout`
    /// the `kind` way does: from `self` to `post`, returning `r`.
    spec fn resize_post(
        &self,
        handle: Self::Handle,
        old_layout: Layout,
        new_layout: Layout,
        kind: Resize,
        post: Self,
        r: Result<MemoryBlock<Self::Handle>, AllocErr>,
    ) -> bool;

    /// Makes the block at `handle` at least `new_layout.size()` bytes, keeping
    /// its first `old_layout.size()` bytes; for an unchanged layout nothing
    /// happens and the same handle comes back.
    fn grow(&mut self, handle: Self::Handle, old_layout: Layout, new_layout: Layout) -> (r: Result<
        MemoryBlock<Self::Handle>,
        AllocErr,
    >)
        requires
            old(self).wf(),
            old_layout.spec_size() <= new_layout.spec_size(),
        ensures
            final(self).wf(),
            old(self).resize_post(handle, old_layout, new_layout, Resize::Grow, *final(self), r),
            old_layout == new_layout ==> r == Ok::<MemoryBlock<Self::Handle>, AllocErr>(
                MemoryBlock { handle, size: old_layout.spec_size() },
            ) && *final(self) == *old(self),
            r is Ok ==> r->Ok_0.size >= new_layout.spec_size(),
            r is Ok && old_layout != new_layout ==> forall|i: int|
                0 <= i < r->Ok_0.size ==> #[trigger] final(self).in_bounds(r->Ok_0.handle, i),
            forall|h: Self::Handle| #[trigger] final(self).addr(h) == old(self).addr(h),
            forall|h: Self::Handle, i: int| #[trigger] final(self).in_bounds(h, i) == old(self).in_bounds(h, i),
            final(self).mem().len() == old(self).mem().len(),
            r is Err ==> final(self).mem() == old(self).mem(),
            r is Ok ==> bytes_kept(*old(self), handle, *final(self), r->Ok_0.handle, old_layout.spec_size() as int),
    ;

    /// As `grow`, with the bytes past the old size zeroed.
    fn grow_zeroed(&mut self, handle: Self::Handle, old_layout: Layout, new_layout: Layout) -> (r: Result<
        MemoryBlock<Self::Handle>,
        AllocErr,
    >)
        requires
            old(self).wf(),
            old_layout.spec_size() <= new_layout.spec_size(),
        ensures
            final(self).wf(),
            old(self).resize_post(handle, old_layout, new_layout, Resize::GrowZeroed, *final(self), r),
            old_layout == new_layout ==> r == Ok::<MemoryBlock<Self::Handle>, AllocErr>(
                MemoryBlock { handle, size: old_layout.spec_size() },
            ) && *final(self) == *old(self),
            r is Ok ==> r->Ok_0.size >= new_layout.spec_size(),
            r is Ok && old_layout != new_layout ==> forall|i: int|
                0 <= i < r->Ok_0.size ==> #[trigger] final(self).in_bounds(r->Ok_0.handle, i),
            forall|h: Self::Handle| #[trigger] final(self).addr(h) == old(self).addr(h),
            forall|h: Self::Handle, i: int| #[trigger] final(self).in_bounds(h, i) == old(self).in_bounds(h, i),
            final(self).mem().len() == old(self).mem().len(),
            r is Err ==> final(self).mem() == old(self).mem(),
            r is Ok ==> bytes_kept(*old(self), handle, *final(self), r->Ok_0.handle, old_layout.spec_size() as int),
            r is Ok ==> bytes_zero(
                *final(self),
                r->Ok_0.handle,
                old_layout.spec_size() as int,
                new_layout.spec_size() as int,
            ),
    ;

    /// Makes the block at `handle` fit `new_layout`, keeping its first
    /// `new_layout.size()` bytes; for an unchanged layout nothing happens and
    /// the same handle comes back.
    fn shrink(&mut self, handle: Self::Handle, old_layout: Layout, new_layout: Layout) -> (r: Result<
        MemoryBlock<Self::Handle>,
        AllocErr,
    >)
        requires
            old(self).wf(),
            new_layout.spec_size() <= old_layout.spec_size(),
        ensures
            final(self).wf(),
            old(self).resize_post(handle, old_layout, new_layout, Resize::Shrink, *final(self), r),
            old_layout == new_layout ==> r == Ok::<MemoryBlock<Self::Handle>, AllocErr>(
                MemoryBlock { handle, size: old_layout.spec_size() },
            ) && *final(self) == *old(self),
            r is Ok ==> r->Ok_0.size >= new_layout.spec_size(),
            r is Ok && old_layout != new_layout ==> forall|i: int|
                0 <= i < r->Ok_0.size ==> #[trigger] final(self).in_bounds(r->Ok_0.handle, i),
            forall|h: Self::Handle| #[trigger] final(self).addr(h) == old(self).addr(h),
            forall|h: Self::Handle, i: int| #[trigger] final(self).in_bounds(h, i) == old(self).in_bounds(h, i),
            final(self).mem().len() == old(self).mem().len(),
            r is Err ==> final(self).mem() == old(self).mem(),
            r is Ok ==> bytes_kept(*old(self), handle, *final(self), r->Ok_0.handle, new_layout.spec_size() as int),
    ;
}

} // verus!
