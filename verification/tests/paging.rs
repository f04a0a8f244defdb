use rvkernel::{
    read_buffer, translated_byte_buffer, write_buffer, FrameDeallocError, MapPermission, MemorySet,
    PTEFlags, PageTable, PhysAddr, PhysMemory, PhysPageNum, SimpleRange, SimpleRangeIterator,
    StackFrameAllocator, StepByOne, VirtAddr, VirtPageNum,
};

fn fresh_memory() -> (PhysMemory, StackFrameAllocator) {
    let base: u64 = 0x1000;
    let count: usize = 512;
    let mem = PhysMemory::new(base, count);
    let mut allocator = StackFrameAllocator::new();
    allocator.init(PhysPageNum(base), PhysPageNum(base + count as u64));
    (mem, allocator)
}

#[test]
fn floor_and_ceil_agree_on_page_boundaries() {
    let a = VirtAddr(0x8000);
    assert_eq!(a.floor().0, 8);
    assert_eq!(a.ceil().0, 8);
    let p = PhysAddr(0x8000);
    assert_eq!(p.floor().0, 8);
    assert_eq!(p.ceil().0, 8);
}

#[test]
fn ceil_is_at_most_one_page_above_floor() {
    let a = VirtAddr(0x8001);
    assert_eq!(a.floor().0, 8);
    assert_eq!(a.ceil().0, 9);
    let b = VirtAddr(0x8fff);
    assert_eq!(b.floor().0, 8);
    assert_eq!(b.ceil().0, 9);
    let z = VirtAddr(0);
    assert_eq!(z.floor().0, 0);
    assert_eq!(z.ceil().0, 0);
}

#[test]
fn page_offset_and_alignment() {
    assert_eq!(VirtAddr(0x8123).page_offset(), 0x123);
    assert!(VirtAddr(0x9000).aligned());
    assert!(!VirtAddr(0x9001).aligned());
    assert_eq!(PhysAddr(0x8123).page_offset(), 0x123);
    assert!(PhysAddr(0x9000).aligned());
}

#[test]
fn address_conversions_mask_to_their_widths() {
    assert_eq!(VirtAddr::from(u64::MAX).0, 0x7f_ffff_ffff);
    assert_eq!(PhysAddr::from(u64::MAX).0, 0x00ff_ffff_ffff_ffff);
    assert_eq!(PhysPageNum::from(u64::MAX).0, 0xfff_ffff_ffff);
    assert_eq!(VirtPageNum::from(u64::MAX).0, 0x7ff_ffff);
    assert_eq!(u64::from(VirtAddr(0x40_0000_0000)), 0xffff_ffc0_0000_0000);
    assert_eq!(u64::from(VirtAddr(0x1000)), 0x1000);
    assert_eq!(VirtAddr::from(VirtPageNum(5)).0, 0x5000);
    assert_eq!(PhysAddr::from(PhysPageNum(5)).0, 0x5000);
}

#[test]
fn vpn_indexes_split_nine_bit_levels() {
    let v = VirtPageNum((3 << 18) | (5 << 9) | 7);
    let idx = v.indexes();
    assert_eq!(idx, [3, 5, 7]);
    let top = VirtPageNum(0x7ff_ffff);
    assert_eq!(top.indexes(), [511, 511, 511]);
}

#[test]
fn simple_range_iterates_its_pages() {
    let r = SimpleRange::new(VirtPageNum(3), VirtPageNum(6));
    assert_eq!(r.get_start().0, 3);
    assert_eq!(r.get_end().0, 6);
    let mut it = r.iter();
    let mut seen = Vec::new();
    while let Some(v) = it.next() {
        seen.push(v.0);
    }
    assert_eq!(seen, vec![3, 4, 5]);
    let mut it2 = SimpleRangeIterator::new(VirtPageNum(4), VirtPageNum(4));
    assert!(it2.next().is_none());
    let mut v = VirtPageNum(9);
    v.step();
    assert_eq!(v.0, 10);
}

#[test]
fn page_table_entry_packs_and_decodes() {
    let pte = rvkernel::PageTableEntry::new(PhysPageNum(0x1234), PTEFlags::new(0x0f));
    assert_eq!(pte.ppn().0, 0x1234);
    assert_eq!(pte.flags().bits, 0x0f);
    assert!(pte.is_valid());
    assert!(pte.readable());
    assert!(pte.writable());
    assert!(pte.executable());
    let empty = rvkernel::PageTableEntry::empty();
    assert!(!empty.is_valid());
    assert_eq!(empty.bits, 0);
}

#[test]
fn map_then_translate_then_unmap() {
    let (mut mem, mut allocator) = fresh_memory();
    let mut pt = PageTable::new(&mut allocator, &mut mem).unwrap();
    let vpn = VirtPageNum(0x42);
    let ppn = PhysPageNum(0x1700);
    pt.map(&mut allocator, &mut mem, vpn, ppn, PTEFlags::new(0x06)).unwrap();
    let pte = pt.translate(&mem, vpn).expect("mapped page must translate");
    assert_eq!(pte.ppn().0, 0x1700);
    assert_eq!(pte.flags().bits, 0x07);
    assert!(pte.is_valid());
    pt.unmap(&mut mem, vpn).unwrap();
    assert!(pt.translate(&mem, vpn).is_none());
}

#[test]
fn mapping_twice_without_unmap_is_refused() {
    let (mut mem, mut allocator) = fresh_memory();
    let mut pt = PageTable::new(&mut allocator, &mut mem).unwrap();
    let vpn = VirtPageNum(0x42);
    pt.map(&mut allocator, &mut mem, vpn, PhysPageNum(0x1700), PTEFlags::new(0x02)).unwrap();
    let again = pt.map(&mut allocator, &mut mem, vpn, PhysPageNum(0x1701), PTEFlags::new(0x02));
    assert_eq!(again, Err(rvkernel::PagingError::AlreadyMapped));
    let other = pt.unmap(&mut mem, VirtPageNum(0x43));
    assert_eq!(other, Err(rvkernel::PagingError::NotMapped));
}

#[test]
fn mapping_one_page_leaves_others_untranslated() {
    let (mut mem, mut allocator) = fresh_memory();
    let mut pt = PageTable::new(&mut allocator, &mut mem).unwrap();
    pt.map(&mut allocator, &mut mem, VirtPageNum(0x42), PhysPageNum(0x1700), PTEFlags::new(0x02))
        .unwrap();
    assert!(pt.translate(&mem, VirtPageNum(0x41)).is_none());
    assert!(pt.translate(&mem, VirtPageNum(0x43)).is_none());
    assert!(pt.translate(&mem, VirtPageNum(0x242)).is_none());
}

#[test]
fn token_carries_mode_and_root() {
    let (mut mem, mut allocator) = fresh_memory();
    let pt = PageTable::new(&mut allocator, &mut mem).unwrap();
    let token = pt.token();
    assert_eq!(token >> 60, 8);
    assert_eq!(token & 0xfff_ffff_ffff, pt.root_ppn.0);
    let borrowed = PageTable::from_token(token);
    assert_eq!(borrowed.root_ppn.0, pt.root_ppn.0);
}

#[test]
fn allocator_never_hands_a_live_page_out_twice() {
    let (_, mut allocator) = fresh_memory();
    let mut seen = Vec::new();
    for _ in 0..16 {
        let p = allocator.alloc_page().unwrap();
        assert!(!seen.contains(&p.0), "a live page came out twice");
        seen.push(p.0);
    }
}

#[test]
fn freed_page_may_come_straight_back() {
    let (_, mut allocator) = fresh_memory();
    let a = allocator.alloc_page().unwrap();
    let _b = allocator.alloc_page().unwrap();
    allocator.dealloc(a).unwrap();
    let c = allocator.alloc_page().unwrap();
    assert_eq!(c.0, a.0);
}

#[test]
fn dealloc_of_never_allocated_page_is_refused() {
    let (_, mut allocator) = fresh_memory();
    let _a = allocator.alloc_page().unwrap();
    let r = allocator.dealloc(PhysPageNum(0x4000));
    assert_eq!(r, Err(FrameDeallocError::NotAllocated));
}

#[test]
fn double_free_is_refused() {
    let (_, mut allocator) = fresh_memory();
    let a = allocator.alloc_page().unwrap();
    let _b = allocator.alloc_page().unwrap();
    allocator.dealloc(a).unwrap();
    let r = allocator.dealloc(a);
    assert_eq!(r, Err(FrameDeallocError::DoubleFree));
}

#[test]
fn allocator_fails_only_when_dry() {
    let base: u64 = 0x1000;
    let mem = PhysMemory::new(base, 2);
    let _ = mem;
    let mut allocator = StackFrameAllocator::new();
    allocator.init(PhysPageNum(base), PhysPageNum(base + 2));
    assert!(allocator.alloc_page().is_some());
    assert!(allocator.alloc_page().is_some());
    assert!(allocator.alloc_page().is_none());
}

#[test]
fn byte_span_across_a_page_boundary_round_trips() {
    let (mut mem, mut allocator) = fresh_memory();
    let mut ms = MemorySet::new_bare(&mut allocator, &mut mem).unwrap();
    ms.insert_framed_area(
        &mut allocator,
        &mut mem,
        VirtAddr(0x10000),
        VirtAddr(0x12000),
        MapPermission::new(0x16),
    )
    .unwrap();
    // one byte before the boundary, ten bytes past it
    let ptr: u64 = 0x10fff;
    let len: u64 = 11;
    let segs = translated_byte_buffer(&ms.page_table, &mem, ptr, len)
        .expect("the span is fully mapped");
    assert_eq!(segs.len(), 2, "the span splits into exactly two slices");
    let len0 = segs[0].end - segs[0].start;
    let len1 = segs[1].end - segs[1].start;
    assert_eq!(len0, 1);
    assert_eq!(len1, 10);
    assert_eq!(len0 + len1, len as usize);
    let data: Vec<u8> = (1u8..=11).collect();
    write_buffer(&mut mem, &segs, data.as_slice());
    let back = read_buffer(&mem, &segs);
    assert_eq!(back, data, "a full write then read round-trips");
}

#[test]
fn shrink_and_append_adjust_a_region() {
    let (mut mem, mut allocator) = fresh_memory();
    let mut ms = MemorySet::new_bare(&mut allocator, &mut mem).unwrap();
    ms.insert_framed_area(
        &mut allocator,
        &mut mem,
        VirtAddr(0x20000),
        VirtAddr(0x22000),
        MapPermission::new(0x16),
    )
    .unwrap();
    assert!(ms.translate(&mem, VirtPageNum(0x21)).is_some());
    let grown = ms
        .append_to(&mut allocator, &mut mem, VirtAddr(0x20000), VirtAddr(0x24000))
        .unwrap();
    assert!(grown);
    assert!(ms.translate(&mem, VirtPageNum(0x23)).is_some());
    let shrunk = ms.shrink_to(&mut allocator, &mut mem, VirtAddr(0x20000), VirtAddr(0x21000));
    assert!(shrunk);
    assert!(ms.translate(&mem, VirtPageNum(0x20)).is_some());
    assert!(ms.translate(&mem, VirtPageNum(0x21)).is_none());
    assert!(ms.translate(&mem, VirtPageNum(0x23)).is_none());
    // a region that does not exist fails closed
    assert!(!ms.shrink_to(&mut allocator, &mut mem, VirtAddr(0x90000), VirtAddr(0x90000)));
    let missing = ms
        .append_to(&mut allocator, &mut mem, VirtAddr(0x90000), VirtAddr(0x91000))
        .unwrap();
    assert!(!missing);
}

#[test]
fn trampoline_maps_the_top_page() {
    let (mut mem, mut allocator) = fresh_memory();
    let mut ms = MemorySet::new_bare(&mut allocator, &mut mem).unwrap();
    ms.map_trampoline(&mut allocator, &mut mem, PhysPageNum(0x900)).unwrap();
    let pte = ms.translate(&mem, VirtPageNum(0x7ff_ffff)).expect("trampoline page translates");
    assert_eq!(pte.ppn().0, 0x900);
    assert!(pte.readable());
    assert!(pte.executable());
}

#[test]
fn kernel_stack_positions_step_down_with_a_guard_page() {
    let (b0, t0) = rvkernel::kernel_stack_position(0);
    let (b1, t1) = rvkernel::kernel_stack_position(1);
    assert_eq!(t0 - b0, 8192);
    assert_eq!(t1 - b1, 8192);
    assert_eq!(t0 - t1, 8192 + 4096);
    assert_eq!(t0, u64::MAX - 4096 + 1);
}
