use crate::core_traits::{
    moved_post, Resize,
    block_result, dangling_block, empty_block, into_block_result, AllocErr, Handle, MemoryBlock,
    NonEmptyMemoryBlock, ResizableStorage, Storage, lemma_same_addressing_trans, same_addressing,
    block_readable, reachable,
};
use crate::layout::{extend_spec, repeat_spec, valid_layout, Layout, NonEmptyLayout};
use vstd::prelude::*;

verus! {

/// A backend that can hand back memory it keeps pooled.
pub trait Flush: Storage {
    /// What a complete flush does, from `self` to `post`.
    spec fn flush_post(&self, post: Self) -> bool;

    /// Gives back what can be given back now; `true` when everything was.
    fn try_flush(&mut self) -> (r: bool)
        requires
            old(self).wf(),
        ensures
            final(self).wf(),
            r ==> old(self).flush_post(*final(self)),
            final(self).mem() == old(self).mem(),
            forall|h: Self::Handle| #[trigger] final(self).addr(h) == old(self).addr(h),
            forall|h: Self::Handle, i: int| #[trigger] final(self).in_bounds(h, i) == old(self).in_bounds(h, i),
    ;

    /// A complete flush keeps the invariant, every byte, and the addressing
    /// of every handle.
    proof fn lemma_flush_keeps(&self, post: Self)
        requires
            self.wf(),
            self.flush_post(post),
        ensures
            post.wf(),
            post.mem() == self.mem(),
            forall|h: Self::Handle| #[trigger] post.addr(h) == self.addr(h),
            forall|h: Self::Handle, i: int| #[trigger] post.in_bounds(h, i) == self.in_bounds(h, i),
    ;

    /// Gives back everything pooled.
    fn flush(&mut self)
        requires
            old(self).wf(),
        ensures
            final(self).wf(),
            old(self).flush_post(*final(self)),
            final(self).mem() == old(self).mem(),
            forall|h: Self::Handle| #[trigger] final(self).addr(h) == old(self).addr(h),
            forall|h: Self::Handle, i: int| #[trigger] final(self).in_bounds(h, i) == old(self).in_bounds(h, i),
    ;
}

/// The lock bit of a bucket byte; the seven bits below it mark full slots.
pub const SINGLE_LOCK: u8 = 0x80;

/// A bucket byte with all seven slots full.
pub const MASK_STATUS: u8 = 0x7f;

/// Slot `j` of a bucket byte is full.
pub open spec fn is_full(flags: u8, j: u8) -> bool {
    flags & (1u8 << j) != 0
}

proof fn lemma_bits(b: u8, j: u8, k: u8)
    requires
        j < 7,
        k < 7,
    ensures
        is_full(b | (1u8 << j), k) == (k == j || is_full(b, k)),
        is_full(b & !(1u8 << j), k) == (k != j && is_full(b, k)),
        !is_full(0u8, k),
        is_full(MASK_STATUS, k),
{
    assert(((b | (1u8 << j)) & (1u8 << k) != 0) == (k == j || b & (1u8 << k) != 0)) by (bit_vector)
        requires
            j < 7,
            k < 7,
    ;
    assert(((b & !(1u8 << j)) & (1u8 << k) != 0) == (k != j && b & (1u8 << k) != 0)) by (bit_vector)
        requires
            j < 7,
            k < 7,
    ;
    assert(0u8 & (1u8 << k) == 0) by (bit_vector);
    assert(0x7fu8 & (1u8 << k) != 0) by (bit_vector)
        requires
            k < 7,
    ;
}

/// The first slot from `j` on, among `slots`, that is full in `status` and
/// whose stored layout serves `layout`.
pub open spec fn bucket_fit_from(status: u8, slots: Seq<Layout>, layout: NonEmptyLayout, j: int) -> Option<int>
    decreases slots.len() - j,
{
    if j < 0 || j >= slots.len() {
        None
    } else if is_full(status, j as u8) && slots[j].spec_align() == layout.spec_align() && slots[j].spec_size()
        >= layout.spec_size() {
        Some(j)
    } else {
        bucket_fit_from(status, slots, layout, j + 1)
    }
}

/// The first of the first `valid` slots from `j` on that is empty in
/// `status`.
pub open spec fn bucket_free_from(status: u8, valid: int, j: int) -> Option<int>
    decreases valid - j,
{
    if j < 0 || j >= valid {
        None
    } else if !is_full(status, j as u8) {
        Some(j)
    } else {
        bucket_free_from(status, valid, j + 1)
    }
}

/// The slot of a bucket that serves `layout`: the first, in scan order, that
/// is full in `status` and holds a layout of the same alignment and at least
/// the size. `slots` are the layouts stored in the bucket's slots.
pub fn bucket_fit(status: u8, slots: &[Layout], layout: NonEmptyLayout) -> (r: Option<usize>)
    requires
        slots@.len() <= 7,
    ensures
        r == (match bucket_fit_from(status, slots@, layout, 0) {
            Some(j) => Some(j as usize),
            None => None,
        }),
{
    let size = layout.size();
    let align = layout.align();
    let mut j: usize = 0;
    while j < slots.len()
        invariant
            slots@.len() <= 7,
            j <= slots@.len(),
            size == layout.spec_size(),
            align == layout.spec_align(),
            bucket_fit_from(status, slots@, layout, j as int) == bucket_fit_from(status, slots@, layout, 0),
        decreases slots@.len() - j,
    {
        let bit = 1u8 << (j as u8);
        if status & bit != 0 && slots[j].align() == align && slots[j].size() >= size {
            return Some(j);
        }
        j = j + 1;
    }
    None
}

/// The first of the first `valid` slots of a bucket that is empty in
/// `status`.
pub fn bucket_free(status: u8, valid: usize) -> (r: Option<usize>)
    requires
        valid <= 7,
    ensures
        r == (match bucket_free_from(status, valid as int, 0) {
            Some(j) => Some(j as usize),
            None => None,
        }),
{
    let mut j: usize = 0;
    while j < valid
        invariant
            valid <= 7,
            j <= valid,
            bucket_free_from(status, valid as int, j as int) == bucket_free_from(status, valid as int, 0),
        decreases valid - j,
    {
        if status & (1u8 << (j as u8)) == 0 {
            return Some(j);
        }
        j = j + 1;
    }
    None
}

/// `status` with slot `j` marked empty; every other slot and the lock bit
/// as they were.
pub fn bucket_clear(status: u8, j: usize) -> (r: u8)
    requires
        j < 7,
    ensures
        forall|k: u8| k < 7 ==> #[trigger] is_full(r, k) == (k != j && is_full(status, k)),
        r & SINGLE_LOCK == status & SINGLE_LOCK,
{
    let r = status & !(1u8 << (j as u8));
    proof {
        assert forall|k: u8| k < 7 implies #[trigger] is_full(r, k) == (k != j && is_full(status, k)) by {
            lemma_bits(status, j as u8, k);
        }
        let jj = j as u8;
        assert((status & !(1u8 << jj)) & 0x80u8 == status & 0x80u8) by (bit_vector)
            requires
                jj < 7,
        ;
    }
    r
}

/// `status` with slot `j` marked full; every other slot and the lock bit as
/// they were.
pub fn bucket_set(status: u8, j: usize) -> (r: u8)
    requires
        j < 7,
    ensures
        forall|k: u8| k < 7 ==> #[trigger] is_full(r, k) == (k == j || is_full(status, k)),
        r & SINGLE_LOCK == status & SINGLE_LOCK,
{
    let r = status | (1u8 << (j as u8));
    proof {
        assert forall|k: u8| k < 7 implies #[trigger] is_full(r, k) == (k == j || is_full(status, k)) by {
            lemma_bits(status, j as u8, k);
        }
        let jj = j as u8;
        assert((status | (1u8 << jj)) & 0x80u8 == status & 0x80u8) by (bit_vector)
            requires
                jj < 7,
        ;
    }
    r
}

/// A pooled block: the handle and the layout it was given back with.
pub struct FreeEntry<H> {
    pub handle: H,
    pub layout: Layout,
}

/// One slot of the pool.
pub struct FreeListItem<H> {
    layout: Layout,
    handle: H,
}

/// A pooled entry serves `layout`: same alignment, at least as large.
pub open spec fn entry_fits<H>(e: Option<FreeEntry<H>>, layout: NonEmptyLayout) -> bool {
    &&& e is Some
    &&& e->0.layout.spec_align() == layout.spec_align()
    &&& e->0.layout.spec_size() >= layout.spec_size()
}

/// The first slot from `i` on, in scan order, whose entry serves `layout`.
pub open spec fn first_fit_from<H>(pool: Seq<Option<FreeEntry<H>>>, layout: NonEmptyLayout, i: int) -> Option<
    int,
>
    decreases pool.len() - i,
{
    if i < 0 || i >= pool.len() {
        None
    } else if entry_fits(pool[i], layout) {
        Some(i)
    } else {
        first_fit_from(pool, layout, i + 1)
    }
}

/// The first slot, in scan order, whose entry serves `layout`.
pub open spec fn first_fit<H>(pool: Seq<Option<FreeEntry<H>>>, layout: NonEmptyLayout) -> Option<int> {
    first_fit_from(pool, layout, 0)
}

/// The first empty slot from `i` on, in scan order.
pub open spec fn first_empty_from<H>(pool: Seq<Option<FreeEntry<H>>>, i: int) -> Option<int>
    decreases pool.len() - i,
{
    if i < 0 || i >= pool.len() {
        None
    } else if pool[i] is None {
        Some(i)
    } else {
        first_empty_from(pool, i + 1)
    }
}

/// The first empty slot, in scan order.
pub open spec fn first_empty<H>(pool: Seq<Option<FreeEntry<H>>>) -> Option<int> {
    first_empty_from(pool, 0)
}

proof fn lemma_first_fit_from<H>(pool: Seq<Option<FreeEntry<H>>>, layout: NonEmptyLayout, i: int)
    requires
        0 <= i <= pool.len(),
    ensures
        (forall|k: int| i <= k < pool.len() ==> !entry_fits(#[trigger] pool[k], layout)) ==> first_fit_from(
            pool,
            layout,
            i,
        ) is None,
        forall|idx: int|
            i <= idx < pool.len() && entry_fits(pool[idx], layout) && (forall|k: int|
                i <= k < idx ==> !entry_fits(#[trigger] pool[k], layout)) ==> #[trigger] first_fit_from(
                pool,
                layout,
                i,
            ) == Some(idx),
    decreases pool.len() - i,
{
    if i < pool.len() {
        lemma_first_fit_from(pool, layout, i + 1);
    }
}

proof fn lemma_first_fit<H>(pool: Seq<Option<FreeEntry<H>>>, layout: NonEmptyLayout, idx: int)
    requires
        0 <= idx < pool.len(),
        entry_fits(pool[idx], layout),
        forall|k: int| 0 <= k < idx ==> !entry_fits(#[trigger] pool[k], layout),
    ensures
        first_fit(pool, layout) == Some(idx),
{
    lemma_first_fit_from(pool, layout, 0);
    assert(first_fit_from(pool, layout, 0) == Some(idx));
}

proof fn lemma_first_fit_none<H>(pool: Seq<Option<FreeEntry<H>>>, layout: NonEmptyLayout)
    requires
        forall|k: int| 0 <= k < pool.len() ==> !entry_fits(#[trigger] pool[k], layout),
    ensures
        first_fit(pool, layout) is None,
{
    lemma_first_fit_from(pool, layout, 0);
}

proof fn lemma_first_empty_from<H>(pool: Seq<Option<FreeEntry<H>>>, i: int)
    requires
        0 <= i <= pool.len(),
    ensures
        (forall|k: int| i <= k < pool.len() ==> (#[trigger] pool[k]) is Some) ==> first_empty_from(pool, i) is None,
        forall|idx: int|
            i <= idx < pool.len() && pool[idx] is None && (forall|k: int|
                i <= k < idx ==> (#[trigger] pool[k]) is Some) ==> #[trigger] first_empty_from(pool, i) == Some(idx),
        first_empty_from(pool, i) is Some ==> i <= first_empty_from(pool, i)->0 < pool.len()
            && pool[first_empty_from(pool, i)->0] is None,
    decreases pool.len() - i,
{
    if i < pool.len() {
        lemma_first_empty_from(pool, i + 1);
    }
}

proof fn lemma_first_empty<H>(pool: Seq<Option<FreeEntry<H>>>, idx: int)
    requires
        0 <= idx < pool.len(),
        pool[idx] is None,
        forall|k: int| 0 <= k < idx ==> (#[trigger] pool[k]) is Some,
    ensures
        first_empty(pool) == Some(idx),
{
    lemma_first_empty_from(pool, 0);
    assert(first_empty_from(pool, 0) == Some(idx));
}

proof fn lemma_first_empty_none<H>(pool: Seq<Option<FreeEntry<H>>>)
    requires
        forall|k: int| 0 <= k < pool.len() ==> (#[trigger] pool[k]) is Some,
    ensures
        first_empty(pool) is None,
{
    lemma_first_empty_from(pool, 0);
}

proof fn lemma_first_fit_found<H>(pool: Seq<Option<FreeEntry<H>>>, layout: NonEmptyLayout)
    requires
        first_fit(pool, layout) is Some,
    ensures
        0 <= first_fit(pool, layout)->0 < pool.len(),
        entry_fits(pool[first_fit(pool, layout)->0], layout),
{
    lemma_first_fit_found_from(pool, layout, 0);
}

proof fn lemma_first_fit_found_from<H>(pool: Seq<Option<FreeEntry<H>>>, layout: NonEmptyLayout, i: int)
    requires
        first_fit_from(pool, layout, i) is Some,
    ensures
        i <= first_fit_from(pool, layout, i)->0 < pool.len(),
        entry_fits(pool[first_fit_from(pool, layout, i)->0], layout),
    decreases pool.len() - i,
{
    if i >= 0 && i < pool.len() && !entry_fits(pool[i], layout) {
        lemma_first_fit_found_from(pool, layout, i + 1);
    }
}

proof fn lemma_first_empty_found<H>(pool: Seq<Option<FreeEntry<H>>>)
    requires
        first_empty(pool) is Some,
    ensures
        0 <= first_empty(pool)->0 < pool.len(),
        pool[first_empty(pool)->0] is None,
{
    lemma_first_empty_from(pool, 0);
}

proof fn lemma_slot_index(i: int, j: int)
    requires
        i >= 0,
        0 <= j < 7,
    ensures
        (i * 7 + j) / 7 == i,
        (i * 7 + j) % 7 == j,
{
    vstd::arithmetic::div_mod::lemma_fundamental_div_mod_converse(i * 7 + j, 7, i, j);
}

/// The pooled entries, in scan order.
pub open spec fn pooled<H>(pool: Seq<Option<FreeEntry<H>>>) -> Seq<FreeEntry<H>>
    decreases pool.len(),
{
    if pool.len() == 0 {
        Seq::empty()
    } else {
        let rest = pooled(pool.drop_last());
        match pool.last() {
            Some(e) => rest.push(e),
            None => rest,
        }
    }
}

/// The states `states` go from one to the next by giving back each of
/// `entries`, in order, with the layout it was pooled with.
pub open spec fn deallocation_chain<S: Storage>(states: Seq<S>, entries: Seq<FreeEntry<S::Handle>>) -> bool {
    &&& states.len() == entries.len() + 1
    &&& forall|k: int|
        0 <= k < entries.len() ==> #[trigger] states[k].deallocate_post(
            entries[k].handle,
            NonEmptyLayout::spec_from(entries[k].layout),
            states[k + 1],
        )
}

/// `post` is reached from `pre` by giving back each of `entries`, in order,
/// with the layout it was pooled with.
pub open spec fn deallocated_in_order<S: Storage>(pre: S, entries: Seq<FreeEntry<S::Handle>>, post: S) -> bool {
    exists|states: Seq<S>|
        #[trigger] deallocation_chain(states, entries) && states[0] == pre && states.last() == post
}

proof fn lemma_pooled_step<H>(pool: Seq<Option<FreeEntry<H>>>, k: int)
    requires
        0 <= k < pool.len(),
    ensures
        pooled(pool.take(k + 1)) == match pool[k] {
            Some(e) => pooled(pool.take(k)).push(e),
            None => pooled(pool.take(k)),
        },
{
    assert(pool.take(k + 1).drop_last() =~= pool.take(k));
    assert(pool.take(k + 1).last() == pool[k]);
}

/// A pool of up to `max_length` freed blocks in front of an inner storage.
/// Freed blocks are kept and handed out again, first fit in scan order, to
/// requests of the same alignment and no larger size; when the pool is full
/// or holds nothing that fits, the inner storage is used.
pub struct FreeListStorage<S: Storage> {
    max_length: usize,
    storage: S,
    items: Vec<FreeListItem<S::Handle>>,
    bitflags: Vec<u8>,
    table: S::Handle,
    table_layout: NonEmptyLayout,
}

/// The layout of one slot record.
pub open spec fn record_layout<H>() -> Option<Layout> {
    if valid_layout(
        vstd::layout::size_of::<FreeListItem<H>>() as usize as int,
        vstd::layout::align_of::<FreeListItem<H>>() as usize as int,
    ) {
        Some(
            Layout::spec_new(
                vstd::layout::size_of::<FreeListItem<H>>() as usize,
                vstd::layout::align_of::<FreeListItem<H>>() as usize,
            ),
        )
    } else {
        None
    }
}

/// The number of bitmap bytes for `max_size` slots: one per seven.
pub open spec fn bitmap_len(max_size: usize) -> int {
    max_size / 7 + if max_size % 7 != 0 {
        1int
    } else {
        0int
    }
}

/// The layout of the table a pool of `max_size` slots takes from the inner
/// storage: the slot records, then the bitmap bytes.
pub open spec fn table_layout<H>(max_size: usize) -> Option<Layout> {
    match record_layout::<H>() {
        Some(record) => match repeat_spec(record, max_size) {
            Some((records, _)) => if valid_layout(bitmap_len(max_size), 1) {
                match extend_spec(records, Layout::spec_new(bitmap_len(max_size) as usize, 1)) {
                    Some((whole, _)) => Some(whole),
                    None => None,
                }
            } else {
                None
            },
            None => None,
        },
        None => None,
    }
}

/// The layout of the table for `max_size` slots.
pub fn free_list_layout<H>(max_size: usize) -> (r: Option<Layout>)
    requires
        0 < max_size < usize::MAX / 8,
    ensures
        r == table_layout::<H>(max_size),
        r is Some ==> r->0.spec_size() > 0,
{
    let record = match Layout::from_size_align(core::mem::size_of::<FreeListItem<H>>(), core::mem::align_of::<FreeListItem<H>>()) {
        Some(l) => l,
        None => return None,
    };
    let (records, _) = match record.repeat(max_size) {
        Some(x) => x,
        None => return None,
    };
    let buckets = max_size / 7 + if max_size % 7 != 0 {
        1usize
    } else {
        0usize
    };
    let bitmap = match Layout::from_size_align(buckets, 1) {
        Some(l) => l,
        None => return None,
    };
    proof {
        reveal_with_fuel(crate::layout::is_pow2, 2);
        crate::layout::lemma_extend(records, bitmap);
    }
    match records.extend(bitmap) {
        Some((whole, _)) => Some(whole),
        None => None,
    }
}

impl<S: Storage> FreeListStorage<S> {
    /// Slot `idx` holds an entry.
    pub closed spec fn slot_full(&self, idx: int) -> bool {
        is_full(self.bitflags@[idx / 7], (idx % 7) as u8)
    }

    /// The pool, slot by slot.
    pub closed spec fn pool(&self) -> Seq<Option<FreeEntry<S::Handle>>> {
        Seq::new(
            self.max_length as nat,
            |idx: int|
                if self.slot_full(idx) {
                    Some(FreeEntry { handle: self.items@[idx].handle, layout: self.items@[idx].layout })
                } else {
                    None
                },
        )
    }

    /// The block pooled in slot `x` is readable through the inner storage for
    /// its whole size.
    pub closed spec fn entry_reachable(&self, x: int) -> bool {
        block_readable(self.storage, self.items@[x].handle, self.items@[x].layout.spec_size() as int)
    }

    /// The storage behind the pool.
    pub closed spec fn inner(&self) -> S {
        self.storage
    }

    /// The storage behind the pool.
    pub fn storage(&self) -> (r: &S)
        ensures
            *r == self.inner(),
    {
        &self.storage
    }

    /// The handle of the table taken from the inner storage.
    pub closed spec fn table_handle(&self) -> S::Handle {
        self.table
    }

    /// The layout of the table taken from the inner storage.
    pub closed spec fn spec_table_layout(&self) -> NonEmptyLayout {
        self.table_layout
    }

    /// An empty pool of `max_size` slots in front of `storage`, whose table
    /// it takes from `storage` with the layout `table_layout::<S::Handle>`;
    /// on failure the storage comes back with the error.
    pub fn try_new(max_size: usize, storage: S) -> (r: Result<Self, AllocErr<S>>)
        requires
            storage.wf(),
            0 < max_size < usize::MAX / 8,
            table_layout::<S::Handle>(max_size) is Some,
        ensures
            match r {
                Ok(pool) => {
                    &&& pool.wf()
                    &&& pool.pool() == Seq::new(max_size as nat, |i: int| None::<FreeEntry<S::Handle>>)
                    &&& pool.spec_table_layout() == NonEmptyLayout::spec_from(table_layout::<S::Handle>(max_size)->0)
                    &&& exists|b: NonEmptyMemoryBlock<S::Handle>|
                        #[trigger] storage.allocate_post(
                            NonEmptyLayout::spec_from(table_layout::<S::Handle>(max_size)->0),
                            pool.inner(),
                            Ok::<NonEmptyMemoryBlock<S::Handle>, AllocErr>(b),
                        ) && pool.table_handle() == b.handle
                },
                Err(e) => e.1.wf() && exists|ie: AllocErr|
                    ie.0 == e.0 && #[trigger] storage.allocate_post(
                        NonEmptyLayout::spec_from(table_layout::<S::Handle>(max_size)->0),
                        e.1,
                        Err::<NonEmptyMemoryBlock<S::Handle>, AllocErr>(ie),
                    ),
            },
    {
        let whole = match free_list_layout::<S::Handle>(max_size) {
            Some(l) => l,
            None => unreached(),
        };
        let table_layout = NonEmptyLayout::new_unchecked(whole);
        let mut inner = storage;
        match inner.allocate_nonempty(table_layout) {
            Ok(b) => {
                let pool = Self::empty(max_size, inner, b.handle, table_layout);
                let out: Result<Self, AllocErr<S>> = Ok(pool);
                proof {
                    assert(out->Ok_0 == pool);
                    assert(storage.allocate_post(table_layout, pool.inner(), Ok::<NonEmptyMemoryBlock<S::Handle>, AllocErr>(b))
                        && pool.table_handle() == b.handle);
                }
                out
            },
            Err(e) => {
                proof {
                    assert(storage.allocate_post(table_layout, inner, Err::<NonEmptyMemoryBlock<S::Handle>, AllocErr>(e)));
                }
                let out: Result<Self, AllocErr<S>> = Err(e.with(inner));
                proof {
                    assert(out->Err_0.0 == e.0 && out->Err_0.1 == inner);
                }
                out
            },
        }
    }

    /// As `try_new`, for a storage known to grant the table.
    pub fn new(max_size: usize, storage: S) -> (r: Self)
        requires
            storage.wf(),
            0 < max_size < usize::MAX / 8,
            table_layout::<S::Handle>(max_size) is Some,
            forall|post: S, res: Result<NonEmptyMemoryBlock<S::Handle>, AllocErr>|
                #[trigger] storage.allocate_post(
                    NonEmptyLayout::spec_from(table_layout::<S::Handle>(max_size)->0),
                    post,
                    res,
                ) ==> res is Ok,
        ensures
            r.wf(),
            r.pool() == Seq::new(max_size as nat, |i: int| None::<FreeEntry<S::Handle>>),
            r.spec_table_layout() == NonEmptyLayout::spec_from(table_layout::<S::Handle>(max_size)->0),
            exists|b: NonEmptyMemoryBlock<S::Handle>|
                #[trigger] storage.allocate_post(
                    NonEmptyLayout::spec_from(table_layout::<S::Handle>(max_size)->0),
                    r.inner(),
                    Ok::<NonEmptyMemoryBlock<S::Handle>, AllocErr>(b),
                ) && r.table_handle() == b.handle,
    {
        match Self::try_new(max_size, storage) {
            Ok(pool) => pool,
            Err(e) => unreached(),
        }
    }

    /// Gives the table back to the inner storage and returns it.
    pub fn into_inner(self) -> (r: S)
        requires
            self.wf(),
        ensures
            r.wf(),
            self.inner().deallocate_post(self.table_handle(), self.spec_table_layout(), r),
    {
        let mut inner = self.storage;
        inner.deallocate_nonempty(self.table, self.table_layout);
        inner
    }

    /// An empty pool of `max_size` slots in front of `storage`.
    fn empty(max_size: usize, storage: S, table: S::Handle, table_layout: NonEmptyLayout) -> (r: Self)
        requires
            storage.wf(),
            0 < max_size < usize::MAX / 8,
        ensures
            r.wf(),
            r.inner() == storage,
            r.table_handle() == table,
            r.spec_table_layout() == table_layout,
            r.pool() == Seq::new(max_size as nat, |i: int| None::<FreeEntry<S::Handle>>),
    {
        let buckets = max_size / 7 + if max_size % 7 != 0 {
            1usize
        } else {
            0usize
        };
        let mut items: Vec<FreeListItem<S::Handle>> = Vec::new();
        let mut k: usize = 0;
        while k < max_size
            invariant
                k <= max_size,
                items@.len() == k,
            decreases max_size - k,
        {
            items.push(FreeListItem { layout: Layout::dangling_layout(1), handle: S::Handle::dangling(1) });
            k = k + 1;
        }
        let bitflags = vec![0u8; buckets];
        let r = FreeListStorage { max_length: max_size, storage, items, bitflags, table, table_layout };
        proof {
            assert forall|i: int, j: u8| 0 <= i < buckets && j < 7 implies !#[trigger] is_full(r.bitflags@[i], j) by {
                lemma_bits(0, 0, j);
            }
            assert forall|idx: int| 0 <= idx < max_size implies !r.slot_full(idx) by {
                lemma_bits(0, 0, (idx % 7) as u8);
            }
            assert(r.pool() =~= Seq::new(max_size as nat, |i: int| None::<FreeEntry<S::Handle>>));
        }
        r
    }

    /// Hands out the first pooled entry that serves `layout`, if any.
    fn attempt_allocate(&mut self, layout: NonEmptyLayout) -> (r: Option<NonEmptyMemoryBlock<S::Handle>>)
        requires
            old(self).wf(),
        ensures
            final(self).wf(),
            final(self).storage == old(self).storage,
            final(self).max_length == old(self).max_length,
            match first_fit(old(self).pool(), layout) {
                Some(idx) => {
                    &&& r == Some(
                        NonEmptyMemoryBlock { handle: old(self).pool()[idx]->0.handle, size: layout.spec_size() },
                    )
                    &&& final(self).pool() == old(self).pool().update(idx, None)
                },
                None => r is None && final(self).pool() == old(self).pool(),
            },
    {
        let n = self.bitflags.len();
        let size = layout.size();
        let align = layout.align();
        let mut i: usize = 0;
        while i < n
            invariant
                old(self).wf(),
                *self == *old(self),
                n == self.bitflags@.len(),
                i <= n,
                size == layout.spec_size(),
                align == layout.spec_align(),
                forall|k: int| 0 <= k < i * 7 && k < self.max_length ==> !entry_fits(#[trigger] self.pool()[k], layout),
            decreases n - i,
        {
            let owned = self.bitflags[i];
            if owned != 0 {
                let mut j: u8 = 0;
                while j < 7
                    invariant
                        old(self).wf(),
                        *self == *old(self),
                        n == self.bitflags@.len(),
                        i < n,
                        j <= 7,
                        owned == self.bitflags@[i as int],
                        size == layout.spec_size(),
                        align == layout.spec_align(),
                        forall|k: int|
                            0 <= k < i * 7 + j && k < self.max_length ==> !entry_fits(#[trigger] self.pool()[k], layout),
                    decreases 7 - j,
                {
                    let idx = i * 7 + j as usize;
                    proof {
                        lemma_slot_index(i as int, j as int);
                    }
                    if idx < self.max_length && owned & (1u8 << j) != 0 {
                        let item_layout = self.items[idx].layout;
                        if item_layout.align() == align && item_layout.size() >= size {
                            let handle = self.items[idx].handle;
                            let ghost pre = self.pool();
                            proof {
                                assert(self.slot_full(idx as int));
                                assert(pre[idx as int] == Some(
                                    FreeEntry { handle: self.items@[idx as int].handle, layout: item_layout },
                                ));
                                lemma_first_fit(pre, layout, idx as int);
                            }
                            self.bitflags.set(i, owned & !(1u8 << j));
                            proof {
                                assert forall|x: int| 0 <= x < self.max_length implies #[trigger] self.pool()[x]
                                    == pre.update(idx as int, None)[x] by {
                                    lemma_bits(owned, j, (x % 7) as u8);
                                    if x / 7 == i as int {
                                        lemma_slot_index(i as int, x % 7);
                                    }
                                }
                                assert(self.pool() =~= pre.update(idx as int, None));
                                assert forall|x: int|
                                    0 <= x < self.max_length && #[trigger] self.slot_full(x) implies self.items@[x].layout.spec_size()
                                    > 0 by {
                                    lemma_bits(owned, j, (x % 7) as u8);
                                    if x / 7 == i as int {
                                        lemma_slot_index(i as int, x % 7);
                                    }
                                    assert(old(self).slot_full(x));
                                }
                                assert forall|x: int|
                                    0 <= x < self.max_length && #[trigger] self.slot_full(x) implies self.entry_reachable(x) by {
                                    lemma_bits(owned, j, (x % 7) as u8);
                                    if x / 7 == i as int {
                                        lemma_slot_index(i as int, x % 7);
                                    }
                                    assert(old(self).slot_full(x));
                                    assert(old(self).entry_reachable(x));
                                }
                                assert forall|a: int, b: u8|
                                    0 <= a < self.bitflags@.len() && b < 7 && a * 7 + b >= self.max_length
                                    implies !#[trigger] is_full(self.bitflags@[a], b) by {
                                    lemma_bits(owned, j, b);
                                }
                            }
                            return Some(NonEmptyMemoryBlock { handle, size });
                        }
                    }
                    proof {
                        if idx < self.max_length {
                            assert(!entry_fits(self.pool()[idx as int], layout));
                        }
                    }
                    j = j + 1;
                }
            } else {
                proof {
                    assert forall|k: int| 0 <= k < i * 7 + 7 && k < self.max_length implies !entry_fits(
                        #[trigger] self.pool()[k],
                        layout,
                    ) by {
                        if k >= i * 7 {
                            lemma_slot_index(i as int, k - i * 7);
                            lemma_bits(0, 0, (k % 7) as u8);
                        }
                    }
                }
            }
            i = i + 1;
        }
        proof {
            assert forall|k: int| 0 <= k < self.pool().len() implies !entry_fits(#[trigger] self.pool()[k], layout) by {
                assert(!entry_fits(self.pool()[k], layout));
            }
            lemma_first_fit_none(self.pool(), layout);
        }
        None
    }

    /// Puts `handle` into the first empty slot; `false` when the pool is
    /// full.
    fn attempt_deallocate(&mut self, handle: S::Handle, layout: NonEmptyLayout) -> (r: bool)
        requires
            old(self).wf(),
            block_readable(old(self).storage, handle, layout.spec_size() as int),
        ensures
            final(self).wf(),
            final(self).storage == old(self).storage,
            final(self).max_length == old(self).max_length,
            match first_empty(old(self).pool()) {
                Some(idx) => r && final(self).pool() == old(self).pool().update(
                    idx,
                    Some(FreeEntry { handle, layout: layout.spec_layout() }),
                ),
                None => !r && final(self).pool() == old(self).pool(),
            },
    {
        let n = self.bitflags.len();
        let mut i: usize = 0;
        while i < n
            invariant
                old(self).wf(),
                block_readable(old(self).storage, handle, layout.spec_size() as int),
                *self == *old(self),
                n == self.bitflags@.len(),
                i <= n,
                forall|k: int| 0 <= k < i * 7 && k < self.max_length ==> (#[trigger] self.pool()[k]) is Some,
            decreases n - i,
        {
            let owned = self.bitflags[i];
            if owned != MASK_STATUS {
                let mut j: u8 = 0;
                while j < 7
                    invariant
                        old(self).wf(),
                        block_readable(old(self).storage, handle, layout.spec_size() as int),
                        *self == *old(self),
                        n == self.bitflags@.len(),
                        i < n,
                        j <= 7,
                        owned == self.bitflags@[i as int],
                        forall|k: int| 0 <= k < i * 7 + j && k < self.max_length ==> (#[trigger] self.pool()[k]) is Some,
                    decreases 7 - j,
                {
                    let idx = i * 7 + j as usize;
                    proof {
                        lemma_slot_index(i as int, j as int);
                    }
                    if idx < self.max_length && owned & (1u8 << j) == 0 {
                        let ghost pre = self.pool();
                        proof {
                            lemma_first_empty(pre, idx as int);
                        }
                        self.bitflags.set(i, owned | (1u8 << j));
                        self.items.set(idx, FreeListItem { layout: layout.to_layout(), handle });
                        proof {
                            let entry = Some(FreeEntry { handle, layout: layout.spec_layout() });
                            assert forall|x: int| 0 <= x < self.max_length implies #[trigger] self.pool()[x]
                                == pre.update(idx as int, entry)[x] by {
                                lemma_bits(owned, j, (x % 7) as u8);
                                if x / 7 == i as int {
                                    lemma_slot_index(i as int, x % 7);
                                }
                            }
                            assert(self.pool() =~= pre.update(idx as int, entry));
                            assert forall|a: int, b: u8|
                                0 <= a < self.bitflags@.len() && b < 7 && a * 7 + b >= self.max_length
                                implies !#[trigger] is_full(self.bitflags@[a], b) by {
                                lemma_bits(owned, j, b);
                                lemma_bits(old(self).bitflags@[a], j, b);
                            }
                            assert forall|x: int| 0 <= x < self.max_length && #[trigger] self.slot_full(x) implies self.items@[x].layout.spec_size() > 0 by {
                                lemma_bits(owned, j, (x % 7) as u8);
                                if x / 7 == i as int {
                                    lemma_slot_index(i as int, x % 7);
                                }
                                if x != idx {
                                    assert(old(self).slot_full(x));
                                }
                            }
                            assert forall|x: int| 0 <= x < self.max_length && #[trigger] self.slot_full(x) implies self.entry_reachable(x) by {
                                lemma_bits(owned, j, (x % 7) as u8);
                                if x / 7 == i as int {
                                    lemma_slot_index(i as int, x % 7);
                                }
                                if x != idx {
                                    assert(old(self).slot_full(x));
                                    assert(old(self).entry_reachable(x));
                                } else {
                                    assert(self.items@[x].layout.spec_size() == layout.spec_size());
                                    assert forall|k: int| 0 <= k < self.items@[x].layout.spec_size() implies #[trigger] self.storage.in_bounds(
                                        self.items@[x].handle,
                                        k,
                                    ) by {
                                        assert(old(self).storage.in_bounds(handle, k));
                                    }
                                }
                            }
                        }
                        return true;
                    }
                    proof {
                        if idx < self.max_length {
                            assert(self.pool()[idx as int] is Some);
                        }
                    }
                    j = j + 1;
                }
            } else {
                proof {
                    assert forall|k: int| 0 <= k < i * 7 + 7 && k < self.max_length implies (
                    #[trigger] self.pool()[k]) is Some by {
                        if k >= i * 7 {
                            lemma_slot_index(i as int, k - i * 7);
                            lemma_bits(0, 0, (k % 7) as u8);
                        }
                    }
                }
            }
            i = i + 1;
        }
        proof {
            assert forall|k: int| 0 <= k < self.pool().len() implies (#[trigger] self.pool()[k]) is Some by {
                assert(self.pool()[k] is Some);
            }
            lemma_first_empty_none(self.pool());
        }
        false
    }
}

/// The pool and its invariant depend on the slots alone, not on the inner
/// storage.
proof fn lemma_frame<S: Storage>(a: FreeListStorage<S>, b: FreeListStorage<S>)
    requires
        a.max_length == b.max_length,
        a.items == b.items,
        a.bitflags == b.bitflags,
    ensures
        a.pool() == b.pool(),
        a.wf() && b.storage.wf() && (forall|h: S::Handle, i: int|
            #[trigger] b.storage.in_bounds(h, i) == a.storage.in_bounds(h, i)) ==> b.wf(),
{
    assert(a.pool() =~= b.pool());
    if a.wf() && b.storage.wf() && (forall|h: S::Handle, i: int|
        #[trigger] b.storage.in_bounds(h, i) == a.storage.in_bounds(h, i)) {
        assert forall|x: int| 0 <= x < b.max_length && #[trigger] b.slot_full(x) implies b.entry_reachable(x) by {
            assert(a.slot_full(x));
            assert(a.entry_reachable(x));
            assert forall|i: int| 0 <= i < b.items@[x].layout.spec_size() implies #[trigger] b.storage.in_bounds(
                b.items@[x].handle,
                i,
            ) by {
                assert(a.storage.in_bounds(a.items@[x].handle, i));
            }
        }
        assert forall|x: int| 0 <= x < b.max_length && #[trigger] b.slot_full(x) implies b.items@[x].layout.spec_size() > 0 by {
            assert(a.slot_full(x));
        }
        assert forall|c: int, d: u8|
            0 <= c < b.bitflags@.len() && d < 7 && c * 7 + d >= b.max_length implies !#[trigger] is_full(b.bitflags@[c], d) by {
            assert(!is_full(a.bitflags@[c], d));
        }
    }
}

/// Emptying bucket `i` empties its slots and keeps every other one.
proof fn lemma_clear_bucket<S: Storage>(a: FreeListStorage<S>, b: FreeListStorage<S>, i: int)
    requires
        a.wf(),
        0 <= i < a.bitflags@.len(),
        b.storage == a.storage,
        b.max_length == a.max_length,
        b.items == a.items,
        b.bitflags@ == a.bitflags@.update(i, 0u8),
    ensures
        b.wf(),
        forall|k: int| 0 <= k < b.max_length ==> #[trigger] b.slot_full(k) == (k / 7 != i && a.slot_full(k)),
{
    assert forall|k: int| 0 <= k < b.max_length implies #[trigger] b.slot_full(k) == (k / 7 != i && a.slot_full(k)) by {
        vstd::arithmetic::div_mod::lemma_fundamental_div_mod(k, 7);
        lemma_bits(0, 0, (k % 7) as u8);
    }
    assert forall|c: int, d: u8|
        0 <= c < b.bitflags@.len() && d < 7 && c * 7 + d >= b.max_length implies !#[trigger] is_full(b.bitflags@[c], d) by {
        lemma_bits(0, 0, d);
        assert(!is_full(a.bitflags@[c], d));
    }
    assert forall|x: int| 0 <= x < b.max_length && #[trigger] b.slot_full(x) implies b.items@[x].layout.spec_size() > 0 by {
        assert(a.slot_full(x));
    }
}

impl<S: Storage> FreeListStorage<S> {
    /// Gives every pooled entry back to the inner storage and empties the
    /// pool.
    fn shallow_flush(&mut self)
        requires
            old(self).wf(),
        ensures
            final(self).wf(),
            final(self).max_length == old(self).max_length,
            final(self).pool() == Seq::new(old(self).max_length as nat, |i: int| None::<FreeEntry<S::Handle>>),
            final(self).mem() == old(self).mem(),
            same_addressing(old(self).storage, final(self).storage),
            deallocated_in_order(old(self).storage, pooled(old(self).pool()), final(self).storage),
    {
        let n = self.bitflags.len();
        let ghost whole = old(self).pool();
        proof {
            assert(whole.take(0) =~= Seq::<Option<FreeEntry<S::Handle>>>::empty());
            let start = seq![old(self).storage];
            assert(deallocation_chain(start, pooled(whole.take(0))) && start[0] == old(self).storage
                && start.last() == old(self).storage);
        }
        let mut i: usize = 0;
        while i < n
            invariant
                self.wf(),
                n == self.bitflags@.len(),
                i <= n,
                self.max_length == old(self).max_length,
                self.items == old(self).items,
                whole == old(self).pool(),
                forall|c: int| i <= c < n ==> #[trigger] self.bitflags@[c] == old(self).bitflags@[c],
                self.mem() == old(self).mem(),
                same_addressing(old(self).storage, self.storage),
                forall|k: int| 0 <= k < i * 7 && k < self.max_length ==> !#[trigger] self.slot_full(k),
                deallocated_in_order(
                    old(self).storage,
                    pooled(whole.take(if i * 7 < self.max_length { i * 7 } else { self.max_length as int })),
                    self.storage,
                ),
            decreases n - i,
        {
            let flags = self.bitflags[i];
            let mut j: u8 = 0;
            while j < 7
                invariant
                    self.wf(),
                    n == self.bitflags@.len(),
                    i < n,
                    j <= 7,
                    flags == self.bitflags@[i as int],
                    flags == old(self).bitflags@[i as int],
                    self.max_length == old(self).max_length,
                    self.items == old(self).items,
                    whole == old(self).pool(),
                    forall|c: int| i <= c < n ==> #[trigger] self.bitflags@[c] == old(self).bitflags@[c],
                    self.mem() == old(self).mem(),
                    same_addressing(old(self).storage, self.storage),
                    forall|k: int| 0 <= k < i * 7 && k < self.max_length ==> !#[trigger] self.slot_full(k),
                    deallocated_in_order(
                        old(self).storage,
                        pooled(
                            whole.take(
                                if i * 7 + j < self.max_length {
                                    i * 7 + j
                                } else {
                                    self.max_length as int
                                },
                            ),
                        ),
                        self.storage,
                    ),
                decreases 7 - j,
            {
                let idx = i * 7 + j as usize;
                proof {
                    lemma_slot_index(i as int, j as int);
                    if idx < self.max_length {
                        lemma_pooled_step(whole, idx as int);
                        assert(old(self).slot_full(idx as int) == is_full(flags, j));
                    }
                }
                if idx < self.max_length && flags & (1u8 << j) != 0 {
                    let item_layout = self.items[idx].layout;
                    let handle = self.items[idx].handle;
                    let ghost before = *self;
                    proof {
                        assert(self.slot_full(idx as int));
                    }
                    self.storage.deallocate_nonempty(handle, NonEmptyLayout::new_unchecked(item_layout));
                    proof {
                        lemma_same_addressing_trans(old(self).storage, before.storage, self.storage);
                        lemma_frame(before, *self);
                        assert forall|k: int| 0 <= k < i * 7 && k < self.max_length implies !#[trigger] self.slot_full(k) by {
                            assert(!before.slot_full(k));
                        }
                        let e = whole[idx as int]->0;
                        let done = pooled(whole.take(idx as int));
                        assert(pooled(whole.take(idx + 1)) == done.push(e));
                        assert(deallocated_in_order(old(self).storage, done, before.storage)
                            && before.storage.deallocate_post(e.handle, NonEmptyLayout::spec_from(e.layout), self.storage));
                        let ent = done.push(e);
                        let states = choose|states: Seq<S>|
                            #[trigger] deallocation_chain(states, done) && states[0] == old(self).storage
                                && states.last() == before.storage;
                        let more = states.push(self.storage);
                        assert forall|k: int| 0 <= k < ent.len() implies #[trigger] more[k].deallocate_post(
                            ent[k].handle,
                            NonEmptyLayout::spec_from(ent[k].layout),
                            more[k + 1],
                        ) by {
                            if k < done.len() {
                                assert(states[k].deallocate_post(
                                    done[k].handle,
                                    NonEmptyLayout::spec_from(done[k].layout),
                                    states[k + 1],
                                ));
                            }
                        }
                        assert(deallocation_chain(more, ent) && more[0] == old(self).storage && more.last()
                            == self.storage);
                    }
                }
                j = j + 1;
            }
            let ghost pre_set = *self;
            self.bitflags.set(i, 0);
            proof {
                assert(if i * 7 + 7 < self.max_length { i * 7 + 7 } else { self.max_length as int } == if (i
                    + 1) * 7 < self.max_length {
                    (i + 1) * 7
                } else {
                    self.max_length as int
                });
                lemma_clear_bucket(pre_set, *self, i as int);
                assert forall|k: int| 0 <= k < i * 7 + 7 && k < self.max_length implies !#[trigger] self.slot_full(k) by {
                    vstd::arithmetic::div_mod::lemma_fundamental_div_mod(k, 7);
                    if k < i * 7 {
                        assert(!pre_set.slot_full(k));
                    }
                }
            }
            i = i + 1;
        }
        proof {
            assert(self.pool() =~= Seq::new(old(self).max_length as nat, |i: int| None::<FreeEntry<S::Handle>>));
            assert(n * 7 >= self.max_length);
            assert(whole.take(self.max_length as int) =~= whole);
        }
    }
}

impl<S: Storage> Storage for FreeListStorage<S> {
    type Handle = S::Handle;

    closed spec fn wf(&self) -> bool {
        &&& self.storage.wf()
        &&& 0 < self.max_length < usize::MAX / 8
        &&& self.items@.len() == self.max_length
        &&& self.bitflags@.len() == (self.max_length + 6) / 7
        &&& forall|a: int, b: u8|
            0 <= a < self.bitflags@.len() && b < 7 && a * 7 + b >= self.max_length ==> !#[trigger] is_full(self.bitflags@[a], b)
        &&& forall|x: int|
            0 <= x < self.max_length && #[trigger] self.slot_full(x) ==> self.items@[x].layout.spec_size() > 0
        &&& forall|x: int| 0 <= x < self.max_length && #[trigger] self.slot_full(x) ==> self.entry_reachable(x)
    }

    closed spec fn mem(&self) -> Seq<u8> {
        self.storage.mem()
    }

    closed spec fn addr(&self, handle: S::Handle) -> int {
        self.storage.addr(handle)
    }

    closed spec fn in_bounds(&self, handle: S::Handle, index: int) -> bool {
        self.storage.in_bounds(handle, index)
    }

    closed spec fn same_state(&self, other: Self) -> bool {
        &&& other.max_length == self.max_length
        &&& other.table == self.table
        &&& other.table_layout == self.table_layout
        &&& other.items == self.items
        &&& other.bitflags == self.bitflags
        &&& self.storage.same_state(other.storage)
    }

    proof fn lemma_same_state_refl(&self) {
        self.storage.lemma_same_state_refl();
    }

    proof fn lemma_same_state_trans(&self, b: Self, c: Self) {
        self.storage.lemma_same_state_trans(b.storage, c.storage);
    }

    /// A pooled entry that serves the request is handed out, with the
    /// requested size; otherwise the inner storage allocates.
    closed spec fn allocate_post(
        &self,
        layout: NonEmptyLayout,
        post: Self,
        r: Result<NonEmptyMemoryBlock<S::Handle>, AllocErr>,
    ) -> bool {
        &&& post.max_length == self.max_length
        &&& match first_fit(self.pool(), layout) {
            Some(idx) => {
                &&& post.storage == self.storage
                &&& post.pool() == self.pool().update(idx, None)
                &&& r == Ok::<NonEmptyMemoryBlock<S::Handle>, AllocErr>(
                    NonEmptyMemoryBlock { handle: self.pool()[idx]->0.handle, size: layout.spec_size() },
                )
            },
            None => {
                &&& post.pool() == self.pool()
                &&& self.storage.allocate_post(layout, post.storage, r)
            },
        }
    }

    /// The block goes into the first empty slot; with the pool full it goes
    /// back to the inner storage.
    closed spec fn deallocate_post(&self, handle: S::Handle, layout: NonEmptyLayout, post: Self) -> bool {
        &&& post.max_length == self.max_length
        &&& match (if block_readable(self.storage, handle, layout.spec_size() as int) {
            first_empty(self.pool())
        } else {
            None
        }) {
            Some(idx) => {
                &&& post.storage == self.storage
                &&& post.pool() == self.pool().update(
                    idx,
                    Some(FreeEntry { handle, layout: layout.spec_layout() }),
                )
            },
            None => {
                &&& post.pool() == self.pool()
                &&& self.storage.deallocate_post(handle, layout, post.storage)
            },
        }
    }

    closed spec fn allocate_any_post(
        &self,
        layout: Layout,
        post: Self,
        r: Result<MemoryBlock<S::Handle>, AllocErr>,
    ) -> bool {
        if layout.spec_size() == 0 {
            post == *self && r == dangling_block::<S::Handle>(layout)
        } else {
            exists|rn: Result<NonEmptyMemoryBlock<S::Handle>, AllocErr>|
                self.allocate_post(NonEmptyLayout::spec_from(layout), post, rn) && r == block_result(rn)
        }
    }

    closed spec fn deallocate_any_post(&self, handle: S::Handle, layout: Layout, post: Self) -> bool {
        if layout.spec_size() == 0 {
            post == *self
        } else {
            self.deallocate_post(handle, NonEmptyLayout::spec_from(layout), post)
        }
    }

    proof fn lemma_allocate_keeps(&self, layout: NonEmptyLayout, post: Self, r: Result<NonEmptyMemoryBlock<S::Handle>, AllocErr>) {
        if first_fit(self.pool(), layout) is None {
            self.storage.lemma_allocate_keeps(layout, post.storage, r);
        }
    }

    proof fn lemma_in_bounds(&self, handle: S::Handle, index: int) {
        self.storage.lemma_in_bounds(handle, index);
    }

    fn get(&self, handle: S::Handle, index: usize) -> (r: Option<u8>) {
        self.storage.get(handle, index)
    }

    fn get_mut(&mut self, handle: S::Handle, index: usize, value: u8) -> (r: bool) {
        let r = self.storage.get_mut(handle, index, value);
        proof {
            lemma_frame(*old(self), *self);
        }
        r
    }

    fn allocate_nonempty(&mut self, layout: NonEmptyLayout) -> (r: Result<
        NonEmptyMemoryBlock<S::Handle>,
        AllocErr,
    >) {
        match self.attempt_allocate(layout) {
            Some(block) => {
                proof {
                    let idx = first_fit(old(self).pool(), layout)->0;
                    lemma_first_fit_found(old(self).pool(), layout);
                    assert(old(self).slot_full(idx));
                    assert(old(self).entry_reachable(idx));
                    assert forall|i: int| 0 <= i < block.size implies #[trigger] self.in_bounds(block.handle, i) by {
                        assert(old(self).storage.in_bounds(old(self).items@[idx].handle, i));
                    }
                }
                Ok(block)
            },
            None => {
                let ghost mid = *self;
                let r = self.storage.allocate_nonempty(layout);
                proof {
                    lemma_frame(mid, *self);
                }
                r
            },
        }
    }

    fn deallocate_nonempty(&mut self, handle: S::Handle, layout: NonEmptyLayout) {
        let size = layout.size();
        if !(reachable(&self.storage, handle, size) && self.attempt_deallocate(handle, layout)) {
            let ghost mid = *self;
            self.storage.deallocate_nonempty(handle, layout);
            proof {
                lemma_frame(mid, *self);
            }
        }
    }

    fn allocate(&mut self, layout: Layout) -> (r: Result<MemoryBlock<S::Handle>, AllocErr>) {
        match NonEmptyLayout::new(layout) {
            Some(ne) => {
                let r = self.allocate_nonempty(ne);
                proof {
                    assert(old(self).allocate_post(NonEmptyLayout::spec_from(layout), *self, r));
                }
                into_block_result(r)
            },
            None => empty_block(layout),
        }
    }

    fn deallocate(&mut self, handle: S::Handle, layout: Layout) {
        match NonEmptyLayout::new(layout) {
            Some(ne) => self.deallocate_nonempty(handle, ne),
            None => {},
        }
    }
}

impl<S: ResizableStorage> ResizableStorage for FreeListStorage<S> {
    /// The inner storage resizes; the pool stays as it was.
    closed spec fn resize_post(
        &self,
        handle: S::Handle,
        old_layout: Layout,
        new_layout: Layout,
        kind: Resize,
        post: Self,
        r: Result<MemoryBlock<S::Handle>, AllocErr>,
    ) -> bool {
        &&& self.storage.resize_post(handle, old_layout, new_layout, kind, post.storage, r)
        &&& post == FreeListStorage::<S> { storage: post.storage, ..*self }
    }

    fn grow(&mut self, handle: S::Handle, old_layout: Layout, new_layout: Layout) -> (r: Result<
        MemoryBlock<S::Handle>,
        AllocErr,
    >) {
        let r = self.storage.grow(handle, old_layout, new_layout);
        proof {
            lemma_frame(*old(self), *self);
        }
        r
    }

    fn grow_zeroed(&mut self, handle: S::Handle, old_layout: Layout, new_layout: Layout) -> (r: Result<
        MemoryBlock<S::Handle>,
        AllocErr,
    >) {
        let r = self.storage.grow_zeroed(handle, old_layout, new_layout);
        proof {
            lemma_frame(*old(self), *self);
        }
        r
    }

    fn shrink(&mut self, handle: S::Handle, old_layout: Layout, new_layout: Layout) -> (r: Result<
        MemoryBlock<S::Handle>,
        AllocErr,
    >) {
        let r = self.storage.shrink(handle, old_layout, new_layout);
        proof {
            lemma_frame(*old(self), *self);
        }
        r
    }
}

impl<S: Flush> Flush for FreeListStorage<S> {
    /// Every pooled entry goes back to the inner storage, in scan order,
    /// which is then flushed itself; the pool is empty afterwards, and bytes
    /// and addressing stay.
    closed spec fn flush_post(&self, post: Self) -> bool {
        &&& exists|mid: S|
            #[trigger] deallocated_in_order(self.storage, pooled(self.pool()), mid) && mid.flush_post(post.storage)
        &&& post.max_length == self.max_length
        &&& post.pool() == Seq::new(self.max_length as nat, |i: int| None::<FreeEntry<S::Handle>>)
        &&& post.wf()
        &&& post.mem() == self.mem()
        &&& forall|h: S::Handle| #[trigger] post.addr(h) == self.addr(h)
        &&& forall|h: S::Handle, i: int| #[trigger] post.in_bounds(h, i) == self.in_bounds(h, i)
    }

    proof fn lemma_flush_keeps(&self, post: Self) {
    }

    fn try_flush(&mut self) -> (r: bool) {
        self.shallow_flush();
        let ghost mid = *self;
        let r = self.storage.try_flush();
        proof {
            if r {
                assert(deallocated_in_order(old(self).storage, pooled(old(self).pool()), mid.storage)
                    && mid.storage.flush_post(self.storage));
            }
            lemma_same_addressing_trans(old(self).storage, mid.storage, self.storage);
            lemma_frame(mid, *self);
        }
        r
    }

    fn flush(&mut self) {
        self.shallow_flush();
        let ghost mid = *self;
        self.storage.flush();
        proof {
            assert(deallocated_in_order(old(self).storage, pooled(old(self).pool()), mid.storage)
                && mid.storage.flush_post(self.storage));
            lemma_same_addressing_trans(old(self).storage, mid.storage, self.storage);
            lemma_frame(mid, *self);
        }
    }
}

/// A block given back to a pool that has a free slot, when nothing already
/// pooled serves the next request, is handed out again at once to any request
/// of the same alignment and no larger size, and the inner storage is never
/// asked.
pub proof fn lemma_free_list_reuse<S: Storage>(
    s0: FreeListStorage<S>,
    handle: S::Handle,
    freed: NonEmptyLayout,
    s1: FreeListStorage<S>,
    request: NonEmptyLayout,
    s2: FreeListStorage<S>,
    r: Result<NonEmptyMemoryBlock<S::Handle>, AllocErr>,
)
    requires
        s0.deallocate_post(handle, freed, s1),
        s1.allocate_post(request, s2, r),
        first_empty(s0.pool()) is Some,
        block_readable(s0.inner(), handle, freed.spec_size() as int),
        request.spec_align() == freed.spec_align(),
        request.spec_size() <= freed.spec_size(),
        forall|i: int| 0 <= i < s0.pool().len() ==> !entry_fits(#[trigger] s0.pool()[i], request),
    ensures
        r == Ok::<NonEmptyMemoryBlock<S::Handle>, AllocErr>(
            NonEmptyMemoryBlock { handle, size: request.spec_size() },
        ),
        s2.inner() == s0.inner(),
        s2.pool() == s0.pool(),
{
    let before = s0.pool();
    lemma_first_empty_found(before);
    let idx = first_empty(before)->0;
    let entry = Some(FreeEntry { handle, layout: freed.spec_layout() });
    crate::layout::lemma_non_empty_parts(freed, freed.spec_layout());
    let freed_pool = before.update(idx, entry);
    assert(s1.pool() == freed_pool);
    assert forall|k: int| 0 <= k < idx implies !entry_fits(#[trigger] freed_pool[k], request) by {
        assert(!entry_fits(before[k], request));
    }
    lemma_first_fit(freed_pool, request, idx);
    assert(s2.pool() == freed_pool.update(idx, None));
    assert(freed_pool.update(idx, None) =~= before);
}

/// A request that nothing pooled serves goes to the inner storage, and the
/// pool is left as it was.
pub proof fn lemma_free_list_allocate_fallback<S: Storage>(
    s0: FreeListStorage<S>,
    layout: NonEmptyLayout,
    s1: FreeListStorage<S>,
    r: Result<NonEmptyMemoryBlock<S::Handle>, AllocErr>,
)
    requires
        s0.allocate_post(layout, s1, r),
        forall|i: int| 0 <= i < s0.pool().len() ==> !entry_fits(#[trigger] s0.pool()[i], layout),
    ensures
        s0.inner().allocate_post(layout, s1.inner(), r),
        s1.pool() == s0.pool(),
{
    lemma_first_fit_none(s0.pool(), layout);
}

/// With every slot full, a block given back goes straight to the inner
/// storage, and the pool is left as it was.
pub proof fn lemma_free_list_deallocate_overflow<S: Storage>(
    s0: FreeListStorage<S>,
    handle: S::Handle,
    layout: NonEmptyLayout,
    s1: FreeListStorage<S>,
)
    requires
        s0.deallocate_post(handle, layout, s1),
        forall|i: int| 0 <= i < s0.pool().len() ==> (#[trigger] s0.pool()[i]) is Some,
    ensures
        s0.inner().deallocate_post(handle, layout, s1.inner()),
        s1.pool() == s0.pool(),
{
    lemma_first_empty_none(s0.pool());
}


/// An empty layout never reaches the backend: allocating it gives the
/// dangling handle and no bytes and leaves the storage as it was, and giving
/// it back does nothing.
pub proof fn lemma_free_list_zero_size<S: Storage>(
    s: FreeListStorage<S>,
    layout: Layout,
    post: FreeListStorage<S>,
    r: Result<MemoryBlock<S::Handle>, AllocErr>,
    handle: S::Handle,
    after_free: FreeListStorage<S>,
)
    requires
        layout.spec_size() == 0,
    ensures
        s.allocate_any_post(layout, post, r) ==> post == s && r == dangling_block::<S::Handle>(layout),
        s.deallocate_any_post(handle, layout, after_free) ==> after_free == s,
{
}

/// A free list reads, writes and addresses bytes exactly as the storage
/// behind it does.
pub proof fn lemma_free_list_addressing<S: Storage>(s: FreeListStorage<S>)
    ensures
        s.mem() == s.inner().mem(),
        forall|h: S::Handle| #[trigger] s.addr(h) == s.inner().addr(h),
        forall|h: S::Handle, i: int| #[trigger] s.in_bounds(h, i) == s.inner().in_bounds(h, i),
        s.wf() ==> s.inner().wf(),
{
}

/// A complete flush of a free list gives every pooled entry back to the
/// inner storage, in scan order, then flushes the inner storage; the pool is
/// left empty.
pub proof fn lemma_free_list_flush<S: Flush>(s: FreeListStorage<S>, post: FreeListStorage<S>)
    requires
        s.flush_post(post),
    ensures
        exists|mid: S|
            #[trigger] deallocated_in_order(s.inner(), pooled(s.pool()), mid) && mid.flush_post(post.inner()),
        post.pool() == Seq::new(s.pool().len(), |i: int| None::<FreeEntry<S::Handle>>),
{
    let mid = choose|mid: S|
        #[trigger] deallocated_in_order(s.storage, pooled(s.pool()), mid) && mid.flush_post(post.storage);
    assert(deallocated_in_order(s.inner(), pooled(s.pool()), mid) && mid.flush_post(post.inner()));
}

} // verus!
