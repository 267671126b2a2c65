use storage::{
    bucket_clear, bucket_fit, bucket_free, bucket_set, AffixStorage, Box, AllocErr, Backoff, BumpStorage, ConstLayoutProvider, Count, Counters,
    CountingBumpStorage, CountingFlushStorage, Flush, FlushBarrier, FreeListStorage, Layout,
    MaxSize, MemoryBlock, MultiHandle, MultiStackStorage, NoOpStorage, NonEmptyLayout,
    NullStorage, OffsetHandle, Pad, Picker, PickerHandle, Release, ResizableStorage,
    SingleStackStorage, Storage, TypedLayoutProvider, ZeroSizedStorage, Choose, MinSize, NotC,
    AndC, OrC, MaxAlign, MinAlign, One, Counter, DynamicCounter,
};

fn layout(size: usize, align: usize) -> Layout {
    Layout::from_size_align(size, align).unwrap()
}

fn write_u64<S: Storage>(store: &mut S, handle: S::Handle, value: u64) {
    for (i, b) in value.to_le_bytes().iter().enumerate() {
        assert!(store.get_mut(handle, i, *b));
    }
}

fn read_u64<S: Storage>(store: &S, handle: S::Handle) -> u64 {
    let mut bytes = [0u8; 8];
    for (i, b) in bytes.iter_mut().enumerate() {
        *b = store.get(handle, i).unwrap();
    }
    u64::from_le_bytes(bytes)
}

#[test]
fn lib_test() {
    let mut multi = MultiStackStorage::<4096, 8>::new();
    let block = multi.allocate(layout(8, 8)).unwrap();
    let handle = block.handle;
    write_u64(&mut multi, handle, 0xdead_beef);

    let new_block = multi.allocate(layout(64, 8)).unwrap();
    assert_eq!(read_u64(&multi, handle), 0xdead_beef);

    multi.deallocate(new_block.handle, layout(64, 8));
    assert_eq!(read_u64(&multi, handle), 0xdead_beef);
}

#[test]
fn test2() {
    let memory = SingleStackStorage::<{ 1 << 24 }, 4096>::new();
    let x = BumpStorage::<_, 4096>::new(memory, 0);
    assert_eq!(x.remaining_space(), (1 << 24));
    let mut x = x;
    x.allocate(layout(8 * 32, 8)).unwrap();
    assert_eq!(x.remaining_space(), (1 << 24) - 8 * 32);
}

#[test]
fn global() {
    let memory = SingleStackStorage::<{ 1 << 24 }, 4096>::new();
    let bump = BumpStorage::<_, 4096>::new(memory, 0);
    let bx = Box::new_in(&0xdead_beef_u64.to_le_bytes(), 8, bump);
    let (first, _, bump) = bx.into_raw_parts();
    let bx2 = Box::new_in(&0xbeef_dead_u64.to_le_bytes(), 8, bump);
    let mut bytes = [0u8; 8];
    for (i, b) in bytes.iter_mut().enumerate() {
        *b = bx2.read(i).unwrap();
    }
    assert_eq!(u64::from_le_bytes(bytes), 0xbeef_dead);
    let (_, _, bump) = bx2.into_raw_parts();
    assert_eq!(read_u64(&bump, first), 0xdead_beef);
}

#[test]
fn freelist() {
    // the table takes 4 records of 24 bytes and one bitmap byte, 104 bytes
    // with the alignment; 64 are left for the blocks
    let bump = BumpStorage::<_, 8>::new(SingleStackStorage::<{ 104 + 64 }, 8>::new(), 0);
    let mut storage = FreeListStorage::new(4, bump);
    assert_eq!(storage.storage().remaining_space(), 64);
    let five = layout(40, 8);
    let four = layout(32, 8);
    let three = layout(24, 8);

    let a = storage.allocate(five).unwrap();
    storage.deallocate(a.handle, five);
    let a = storage.allocate(five).unwrap();
    let b = storage.allocate(three).unwrap();
    storage.deallocate(a.handle, five);
    storage.deallocate(b.handle, three);
    let a = storage.allocate(four).unwrap();
    let b = storage.allocate(three).unwrap();
    storage.deallocate(a.handle, four);
    storage.deallocate(b.handle, three);
}

#[test]
fn rc_test() {
    let single = SingleStackStorage::<24, 8>::new().offsetable();
    let mut storage =
        AffixStorage::<TypedLayoutProvider<[usize; 2]>, ConstLayoutProvider<0, 1>, _>::new(single);
    let value = layout(8, 8);
    let bx = storage.allocate(value).unwrap();
    write_u64(&mut storage, bx.handle, 0);

    let mut counters = Counters::<Count, Count>::new();
    assert_eq!(counters.clone_strong(), Some(1));
    assert!(storage.allocate(layout(1, 1)).is_err());
    assert_eq!(read_u64(&storage, bx.handle), 0);

    assert_eq!(counters.drop_strong(), Release::Nothing);
    assert!(storage.allocate(layout(1, 1)).is_err());

    assert_eq!(counters.drop_strong(), Release::ValueAndMemory);
    storage.deallocate(bx.handle, value);
    storage.allocate(layout(1, 1)).unwrap();
}

#[test]
fn layout_rules() {
    assert!(Layout::from_size_align(8, 3).is_none());
    assert!(Layout::from_size_align(8, 0).is_none());
    assert!(Layout::from_size_align(usize::MAX, 1).is_none());
    let l = layout(10, 8);
    assert_eq!(l.size(), 10);
    assert_eq!(l.align(), 8);
    assert_eq!(l.pad_to_align().size(), 16);
    let (whole, offset) = layout(1, 1).extend(layout(4, 4)).unwrap();
    assert_eq!(offset, 4);
    assert_eq!(whole.size(), 8);
    assert_eq!(whole.align(), 4);
    let (rep, stride) = layout(3, 2).repeat(5).unwrap();
    assert_eq!(stride, 4);
    assert_eq!(rep.size(), 20);
    assert!(NonEmptyLayout::new(layout(0, 4)).is_none());
    assert_eq!(NonEmptyLayout::new(layout(3, 4)).unwrap().size(), 3);
}

#[test]
fn zero_size_gets_dangling_without_touching_backend() {
    let mut bump = BumpStorage::<_, 8>::new(SingleStackStorage::<64, 8>::new(), 0);
    let before = bump.remaining_space();
    let block = bump.allocate(layout(0, 8)).unwrap();
    assert_eq!(block.size, 0);
    assert!(block.handle.is_dangling());
    assert_eq!(bump.remaining_space(), before);
    bump.deallocate(block.handle, layout(0, 8));
    assert_eq!(bump.remaining_space(), before);

    let mut multi = MultiStackStorage::<64, 8>::new();
    let block = multi.allocate(layout(0, 4)).unwrap();
    assert!(block.handle.is_dangling());
}

#[test]
fn bump_carves_from_the_top_and_fails_when_full() {
    let mut bump = BumpStorage::<_, 8>::new(SingleStackStorage::<64, 8>::new(), 0);
    assert_eq!(bump.remaining_space(), 64);
    let a = bump.allocate(layout(10, 8)).unwrap();
    // 64 - 10 = 54, rounded down to 48
    assert_eq!(bump.remaining_space(), 48);
    assert_eq!(a.size, 16);
    let err = bump.allocate(layout(8, 16)).err().unwrap();
    assert_eq!(err.0, layout(8, 16));
    assert!(bump.allocate(layout(49, 1)).is_err());
    bump.allocate(layout(48, 1)).unwrap();
    assert_eq!(bump.remaining_space(), 0);
}

#[test]
fn free_list_reuses_pooled_block_without_backend() {
    let bump = BumpStorage::<_, 8>::new(SingleStackStorage::<256, 8>::new(), 0);
    let mut storage = FreeListStorage::new(3, bump);
    let a = storage.allocate(layout(32, 8)).unwrap();
    write_u64(&mut storage, a.handle, 77);
    let before = storage.storage().remaining_space();
    storage.deallocate(a.handle, layout(32, 8));
    // same alignment, smaller size: the pooled block comes back
    let b = storage.allocate(layout(16, 8)).unwrap();
    // and the bump storage behind the pool was not asked
    assert_eq!(storage.storage().remaining_space(), before);
    assert_eq!(read_u64(&storage, b.handle), 77);
    assert_eq!(b.size, 16);
    // a different alignment does not match the pooled entry
    storage.deallocate(b.handle, layout(32, 8));
    let c = storage.allocate(layout(16, 16)).err().unwrap();
    assert_eq!(c.0, layout(16, 16));
}

#[test]
fn free_list_overflow_reaches_backend() {
    let bump = CountingBumpStorage::<_, 8>::new(SingleStackStorage::<512, 8>::new(), 0);
    let mut storage = FreeListStorage::new(2, bump);
    let l = layout(16, 8);
    let blocks: Vec<_> = (0..4).map(|_| storage.allocate(l).unwrap()).collect();
    for b in &blocks {
        storage.deallocate(b.handle, l);
    }
    // two pooled, two handed back to the backend; the next two come from the pool
    let before = storage.storage().remaining_space();
    storage.allocate(l).unwrap();
    storage.allocate(l).unwrap();
    assert_eq!(storage.storage().remaining_space(), before);
    // the pool is empty now: the next allocation goes to the backend
    let before = storage.storage().remaining_space();
    storage.allocate(l).unwrap();
    assert_eq!(storage.storage().remaining_space(), before - 16);
}

#[test]
fn free_list_flush_empties_pool() {
    let bump = CountingBumpStorage::<_, 8>::new(SingleStackStorage::<128, 8>::new(), 0);
    let mut storage = FreeListStorage::new(2, FlushBarrier::new(bump));
    let l = layout(32, 8);
    let a = storage.allocate(l).unwrap();
    let b = storage.allocate(l).unwrap();
    assert!(storage.allocate(l).is_err());
    storage.deallocate(a.handle, l);
    storage.deallocate(b.handle, l);
    storage.flush();
    // both went back to the counting bump; once the table goes back too,
    // nothing is live and the bump rewinds to its top
    let barrier = storage.into_inner();
    assert_eq!(barrier.storage.remaining_space(), 128);
}

#[test]
fn counting_bump_rewinds_when_empty() {
    let mut bump = CountingBumpStorage::<_, 8>::new(SingleStackStorage::<64, 8>::new(), 0);
    let a = bump.allocate(layout(16, 8)).unwrap();
    let b = bump.allocate(layout(16, 8)).unwrap();
    assert_eq!(bump.remaining_space(), 32);
    bump.deallocate(a.handle, layout(16, 8));
    assert_eq!(bump.remaining_space(), 32);
    bump.deallocate(b.handle, layout(16, 8));
    assert_eq!(bump.remaining_space(), 64);
}

#[test]
fn grow_and_shrink_with_same_layout_keep_handle() {
    let mut multi = MultiStackStorage::<128, 8>::new();
    let a = multi.allocate(layout(16, 8)).unwrap();
    write_u64(&mut multi, a.handle, 5);
    let g = multi.grow(a.handle, layout(16, 8), layout(16, 8)).unwrap();
    assert_eq!(g.handle, a.handle);
    let s = multi.shrink(a.handle, layout(16, 8), layout(16, 8)).unwrap();
    assert_eq!(s.handle, a.handle);
    assert_eq!(read_u64(&multi, a.handle), 5);
}

#[test]
fn grow_moves_bytes() {
    let mut multi = MultiStackStorage::<128, 8>::new();
    let a = multi.allocate(layout(8, 8)).unwrap();
    write_u64(&mut multi, a.handle, 0x0102_0304_0506_0708);
    let g = multi.grow(a.handle, layout(8, 8), layout(32, 8)).unwrap();
    assert_ne!(g.handle, a.handle);
    assert!(g.size >= 32);
    assert_eq!(read_u64(&multi, g.handle), 0x0102_0304_0506_0708);
    let z = multi.grow_zeroed(g.handle, layout(32, 8), layout(48, 8)).unwrap();
    assert_eq!(read_u64(&multi, z.handle), 0x0102_0304_0506_0708);
    for i in 32..48 {
        assert_eq!(multi.get(z.handle, i), Some(0));
    }
}

#[test]
fn out_of_bounds_access_is_refused() {
    let mut multi = MultiStackStorage::<16, 8>::new();
    assert_eq!(multi.get(MultiHandle(10), 6), None);
    assert!(!multi.get_mut(MultiHandle(10), 6, 1));
    assert_eq!(multi.get(MultiHandle(10), 5), Some(0));
}

#[test]
fn pad_raises_layouts() {
    let bump = BumpStorage::<_, 16>::new(SingleStackStorage::<128, 16>::new(), 0);
    let mut pad = Pad::<_, 32, 16>::new(bump);
    pad.allocate(layout(1, 1)).unwrap();
    assert_eq!(pad.storage.remaining_space(), 96);
    pad.allocate(layout(40, 8)).unwrap();
    // 40 raised to alignment 16 is 48
    assert_eq!(pad.storage.remaining_space(), 48);
}

#[test]
fn picker_routes_by_size() {
    let small = MultiStackStorage::<64, 8>::new();
    let large = MultiStackStorage::<256, 8>::new();
    let mut picker = Picker { predicate: MaxSize::<16>, left: small, right: large };
    let a = picker.allocate(layout(8, 8)).unwrap();
    assert!(matches!(a.handle, PickerHandle::Left(_)));
    let b = picker.allocate(layout(100, 8)).unwrap();
    assert!(matches!(b.handle, PickerHandle::Right(_)));
    write_u64(&mut picker, a.handle, 11);
    write_u64(&mut picker, b.handle, 22);
    // growing across the boundary moves the block to the other side
    let c = picker.grow(a.handle, layout(8, 8), layout(32, 8)).unwrap();
    assert!(matches!(c.handle, PickerHandle::Right(_)));
    assert_eq!(read_u64(&picker, c.handle), 11);
    assert_eq!(read_u64(&picker, b.handle), 22);
}

#[test]
fn predicates_combine() {
    let l = layout(24, 8);
    assert!(MaxSize::<24>.select(l));
    assert!(!MaxSize::<23>.select(l));
    assert!(MinSize::<24>.select(l));
    assert!(NotC(MinSize::<25>).select(l));
    assert!(AndC(MaxAlign::<8>, MinAlign::<8>).select(l));
    assert!(!AndC(MaxAlign::<4>, MinAlign::<8>).select(l));
    assert!(OrC(MaxAlign::<4>, MinAlign::<8>).select(l));
}

#[test]
fn affix_split_reaches_prefix_and_suffix() {
    let single = SingleStackStorage::<64, 8>::new().offsetable();
    let mut storage =
        AffixStorage::<ConstLayoutProvider<8, 8>, ConstLayoutProvider<4, 4>, _>::new(single);
    let l = layout(8, 8);
    let block = storage.allocate(l).unwrap();
    assert_eq!(block.handle.inner, 8);
    assert_eq!(block.size, 8);
    let (pre, suf) = storage.split(block.handle, l).unwrap();
    assert_eq!(pre, 0);
    assert_eq!(suf, 16);
    for i in 0..8 {
        assert!(storage.inner.get_mut(pre, i, 0xa0 + i as u8));
    }
    for i in 0..4 {
        assert!(storage.inner.get_mut(suf, i, 0xb0 + i as u8));
    }
    write_u64(&mut storage, block.handle, 99);
    for i in 0..8 {
        assert_eq!(storage.inner.get(pre, i), Some(0xa0 + i as u8));
    }
    for i in 0..4 {
        assert_eq!(storage.inner.get(suf, i), Some(0xb0 + i as u8));
    }
    assert_eq!(storage.inner.offset(block.handle.inner, -8), pre);
}

#[test]
fn counting_flush_passes_through() {
    let bump = CountingBumpStorage::<_, 8>::new(SingleStackStorage::<128, 8>::new(), 0);
    let mut storage = CountingFlushStorage::new(FreeListStorage::new(2, FlushBarrier::new(bump)));
    let l = layout(8, 8);
    for _ in 0..300 {
        let a = storage.allocate(l).unwrap();
        storage.deallocate(a.handle, l);
    }
    storage.allocate(l).unwrap();
}

#[test]
fn degenerate_storages() {
    let mut null = NullStorage::new();
    assert_eq!(null.allocate(layout(0, 1)).err().unwrap().0, layout(0, 1));
    assert!(null.allocate(layout(4, 1)).is_err());

    let mut zero = ZeroSizedStorage::<usize>::new();
    let b: MemoryBlock<usize> = zero.allocate(layout(0, 8)).unwrap();
    assert_eq!(b.size, 0);
    assert_eq!(b.handle, 1 << 29);
    assert!(zero.allocate(layout(1, 1)).is_err());

    let mut noop = NoOpStorage;
    assert!(noop.allocate(layout(0, 1)).is_err());
    assert!(noop.try_flush());
}

#[test]
fn single_slot_one_owner_at_a_time() {
    let mut single = SingleStackStorage::<32, 8>::new();
    let a = single.allocate(layout(16, 8)).unwrap();
    assert_eq!(a.size, 32);
    assert!(single.allocate(layout(1, 1)).is_err());
    single.deallocate(a.handle, layout(16, 8));
    assert!(single.allocate(layout(33, 1)).is_err());
    assert!(single.allocate(layout(8, 16)).is_err());
    single.allocate(layout(32, 8)).unwrap();
}

#[test]
fn refcount_drop_order() {
    let mut c = Counters::<Count, Count>::new();
    assert_eq!(c.clone_strong(), Some(1));
    assert_eq!(c.clone_strong(), Some(2));
    assert_eq!(c.drop_strong(), Release::Nothing);
    assert_eq!(c.drop_strong(), Release::Nothing);
    assert_eq!(c.drop_strong(), Release::ValueAndMemory);

    let mut w = Counters::<Count, Count>::new();
    assert_eq!(w.clone_weak(), Some(1));
    assert_eq!(w.drop_strong(), Release::Value);
    assert_eq!(w.drop_weak(), Release::Memory);

    let mut full = Counters { init: Count(usize::MAX), alloc: Count(1) };
    assert_eq!(full.clone_strong(), None);
    assert_eq!(full.init.value(), usize::MAX);

    let mut slim = Counters::<Count, One>::new();
    assert_eq!(slim.drop_strong(), Release::ValueAndMemory);
    let mut one = One::init();
    assert_eq!(one.dec(), 1);
    let mut n = Count(3);
    assert_eq!(n.inc(), Some(3));
    assert_eq!(n.dec(), 4);
}

#[test]
fn backoff_steps() {
    let mut b = Backoff::new();
    for _ in 0..7 {
        assert!(b.spin());
    }
    assert!(!b.spin());
    assert!(!b.is_completed());
    b.reset();
    assert!(b.spin());
}

#[test]
fn alloc_err_carries_payload() {
    let e = AllocErr::new(layout(4, 2));
    let e = e.with(7u8);
    assert_eq!(e.0, layout(4, 2));
    assert_eq!(e.defuse(), 7);
}

#[test]
fn box_holds_bytes_and_grows() {
    let multi = MultiStackStorage::<256, 8>::new();
    let mut bx = Box::try_new_in(&[1, 2, 3, 4], 4, multi).unwrap();
    assert_eq!(bx.len(), 4);
    assert_eq!(bx.read(2), Some(3));
    assert!(bx.write(2, 30));
    bx.try_grow(16).unwrap();
    assert_eq!(bx.len(), 16);
    assert_eq!(bx.read(0), Some(1));
    assert_eq!(bx.read(2), Some(30));
    assert_eq!(bx.read(3), Some(4));
    bx.try_shrink(2).unwrap();
    assert_eq!(bx.len(), 2);
    assert_eq!(bx.read(1), Some(2));
    let (_, l, _) = bx.into_raw_parts();
    assert_eq!(l, layout(2, 4));
}

#[test]
fn box_zeroed_and_slices() {
    let multi = MultiStackStorage::<64, 8>::new();
    let z = Box::try_zeroed_in(layout(8, 8), multi).unwrap();
    for i in 0..8 {
        assert_eq!(z.read(i), Some(0));
    }
    let single = SingleStackStorage::<16, 8>::new();
    let s = Box::try_uninit_slice_in(12, single).ok().unwrap();
    // the box holds the whole slot the storage gave
    assert_eq!(s.len(), 16);
    let single = SingleStackStorage::<16, 8>::new();
    let err = Box::try_uninit_slice_in(17, single).err().unwrap();
    assert_eq!(err.0, layout(17, 1));
    let b = Box::new_in(&[9; 5], 1, MultiStackStorage::<64, 8>::new());
    assert_eq!(b.read(4), Some(9));
    assert!(Box::try_uninit_in(layout(128, 8), MultiStackStorage::<64, 8>::new()).is_err());
}

#[test]
fn affix_grow_keeps_prefix_and_suffix() {
    let bump = BumpStorage::<_, 8>::new(SingleStackStorage::<128, 8>::new(), 0);
    let mut storage =
        AffixStorage::<ConstLayoutProvider<8, 8>, ConstLayoutProvider<4, 4>, _>::new(bump);
    let old = layout(8, 8);
    let block = storage.allocate(old).unwrap();
    let (pre, suf) = storage.split(block.handle, old).unwrap();
    for i in 0..8 {
        assert!(storage.inner.get_mut(pre, i, 0xa0 + i as u8));
    }
    for i in 0..4 {
        assert!(storage.inner.get_mut(suf, i, 0xb0 + i as u8));
    }
    write_u64(&mut storage, block.handle, 0x1122_3344_5566_7788);

    let new = layout(24, 8);
    let grown = storage.grow(block.handle, old, new).unwrap();
    assert!(grown.size >= 24);
    assert_eq!(read_u64(&storage, grown.handle), 0x1122_3344_5566_7788);
    let (pre, suf) = storage.split(grown.handle, new).unwrap();
    for i in 0..8 {
        assert_eq!(storage.inner.get(pre, i), Some(0xa0 + i as u8));
    }
    for i in 0..4 {
        assert_eq!(storage.inner.get(suf, i), Some(0xb0 + i as u8));
    }

    // shrinking back moves the suffix down again
    let shrunk = storage.shrink(grown.handle, new, old).unwrap();
    assert_eq!(read_u64(&storage, shrunk.handle), 0x1122_3344_5566_7788);
    let (_, suf) = storage.split(shrunk.handle, old).unwrap();
    for i in 0..4 {
        assert_eq!(storage.inner.get(suf, i), Some(0xb0 + i as u8));
    }

    // an unchanged layout keeps the handle
    let same = storage.grow(shrunk.handle, old, old).unwrap();
    assert_eq!(same.handle.inner, shrunk.handle.inner);
}

#[test]
fn bucket_decisions() {
    let l8 = NonEmptyLayout::new(layout(8, 8)).unwrap();
    let slots = [layout(4, 8), layout(16, 8), layout(8, 4), layout(32, 8)];
    // slot 0 too small, slot 1 fits but is empty, slot 2 has the wrong alignment
    assert_eq!(bucket_fit(0b1101, &slots, l8), Some(3));
    assert_eq!(bucket_fit(0b1111, &slots, l8), Some(1));
    assert_eq!(bucket_fit(0b0101, &slots, l8), None);
    assert_eq!(bucket_free(0b0000_0111, 7), Some(3));
    assert_eq!(bucket_free(0b0111_1111, 7), None);
    assert_eq!(bucket_free(0b0000_0111, 3), None);
    assert_eq!(bucket_clear(0b1000_0110, 1), 0b1000_0100);
    assert_eq!(bucket_set(0b1000_0100, 0), 0b1000_0101);
}

#[test]
fn non_empty_layout_extends() {
    let four = NonEmptyLayout::new(layout(4, 4)).unwrap();
    let (whole, offset) = four.extend(layout(8, 8)).unwrap();
    assert_eq!(offset, 8);
    assert_eq!(whole.size(), 16);
    assert_eq!(whole.align(), 8);
    let (whole, offset) = four.extend_after(layout(3, 1)).unwrap();
    assert_eq!(offset, 4);
    assert_eq!(whole.size(), 8);
    assert!(four.extend(layout(isize::MAX as usize - 2, 1)).is_none());
}

#[test]
fn free_list_table_comes_from_inner_storage() {
    let bump = BumpStorage::<_, 8>::new(SingleStackStorage::<64, 8>::new(), 0);
    // four slots need a 97-byte table, which does not fit in 64 bytes
    let err = FreeListStorage::try_new(4, bump).err().unwrap();
    assert_eq!(err.0, layout(97, 8));
    let bump = err.defuse();
    assert_eq!(bump.remaining_space(), 64);
    let pool = FreeListStorage::try_new(1, bump).ok().unwrap();
    // one slot: a 24-byte record and one bitmap byte, rounded down to 8
    assert_eq!(pool.storage().remaining_space(), 32);
}
