use kernel::mem::frames::nth_addr;
use kernel::mem::manager::{allocate_phys_frames, deallocate_frames, Allocator, MemoryManager};
use kernel::mem::memapi::{plan_allocation, Location, allocation_flags, allocation_pages, executable_flags, fixed_segment, mapped_segment, readonly_flags, writable_flags, Guarded, UserAccessible};
use kernel::mem::paging::{
    copy_shared_entries, last_unused_index, new_level4_table, upper_half_table, page_table_flags_to_string, recursive_index_to_virtual_address, remap_step, set_entry,
    sign_extend_vaddr, unused_indices_from, virt_addr_from_page_table_indices, FrameSize, Mapping, CurrentMapping, HUGE_PAGE, NO_EXECUTE,
    PRESENT, USER_ACCESSIBLE, WRITABLE,
};
use kernel::mem::phys::{build_stage2_frames, executable_region_length, filter_entries, usable_memory, EntryType, FrameState, MemoryMapEntry, PhysicalBumpAllocator};
use kernel::mem::physical_stage1::TrivialPhysicalFrameAllocator;
use kernel::mem::physical_stage2::{MemoryMapPhysicalFrameAllocator, MemoryRegion, MemoryRegionKind};
use kernel::mem::pm_object::{deallocate_pm_object, AllocationError, AllocationStrategy_, PmObject};
use kernel::mem::virt::vmo::{create_memory_backed_vmo, first_access_flags, map_error_to_vmm, object_pages, page_frame_pairs, AllocationStrategy, MapError};
use kernel::mem::virt::higher_half::{init_higher_half, AlreadyReserved};
use kernel::mem::virt::{Interval, MapAt, VirtualMemoryHigherHalf, VirtualMemoryManager, VmmError};
use kernel::mem::Size;

#[test]
fn test_ord() {
    let _1k = Size::KiB(1);
    let _2k = Size::KiB(2);
    let _1m = Size::MiB(1);
    let _2m = Size::MiB(2);
    let _1g = Size::GiB(1);
    let _2g = Size::GiB(2);
    let _1t = Size::TiB(1);
    let _2t = Size::TiB(2);
    assert!(_1k < _2k);
    assert!(_2k < _1m);
    assert!(_1m < _2m);
    assert!(_2m < _1g);
    assert!(_1g < _2g);
    assert!(_2g < _1t);
    assert!(_1t < _2t);
}

#[test]
fn test_eq() {
    assert_eq!(Size::KiB(1), Size::KiB(1));
    assert_eq!(Size::MiB(1), Size::MiB(1));
    assert_eq!(Size::GiB(1), Size::GiB(1));
    assert_eq!(Size::TiB(1), Size::TiB(1));

    assert_eq!(Size::KiB(1024), Size::MiB(1));
    assert_eq!(Size::MiB(1024), Size::GiB(1));
    assert_eq!(Size::GiB(1024), Size::TiB(1));
}

#[test]
fn size_bytes_and_text() {
    assert_eq!(Size::KiB(32).bytes(), 32 * 1024);
    assert_eq!(Size::MiB(8).bytes(), 8 * 1024 * 1024);
    assert_eq!(Size::GiB(2).bytes_wide(), 2 * 1024 * 1024 * 1024);
    assert_eq!(Size::TiB(3).bytes_wide(), 3 * 1024 * 1024 * 1024 * 1024);
    assert_eq!(Size::MiB(8).to_string(), "8 MiB");
    assert_eq!(Size::KiB(1024).to_string(), "1024 KiB");
    assert_eq!(Size::TiB(0).to_string(), "0 TiB");
    assert!(Size::KiB(1024) != Size::MiB(2));
    assert!(!(Size::MiB(1) < Size::KiB(1024)));
}

#[test]
fn test_allocate() {
    let mut vmm = VirtualMemoryManager::new(0x0, 0x10000);
    let interval = vmm.reserve(0xf000).unwrap();
    // depending on the implementation, these may change
    assert_eq!(interval.start(), 0x0);
    assert_eq!(interval.size(), 0xf000);

    // this allocation is too large
    assert_eq!(VmmError::OutOfMemory, vmm.reserve(0x2000).unwrap_err());

    // we still need to be able to allocate after a failed attempt
    let interval = vmm.reserve(0x1000).unwrap();
    assert_eq!(interval.start(), 0xf000);
    assert_eq!(interval.size(), 0x1000);
}

#[test]
fn test_would_overlap_with_existing() {
    let mut vmm = VirtualMemoryManager::new(0x0, 0x10000);
    let owned = vmm.mark_as_reserved(Interval::new(0x2000, 0x1000)).unwrap();
    assert!(vmm.find_overlapping_element(0x1000, 0x1000).is_none());
    assert!(vmm.find_overlapping_element(0x1000, 0x1001).is_some());
    assert!(vmm.find_overlapping_element(0x1000, 0x3000).is_some());
    assert!(vmm.find_overlapping_element(0x2a00, 0x2f00).is_some());
    assert!(vmm.release(owned.leak()));
    assert!(vmm.find_overlapping_element(0x0, 0x10000).is_none());
}

#[test]
fn reserve_rounds_up_to_pages_and_fills_gaps() {
    let mut vmm = VirtualMemoryManager::new(0x1000_0000, 0x10000);
    let a = vmm.reserve(1).unwrap();
    assert_eq!((a.start(), a.size()), (0x1000_0000, 0x1000));
    let b = vmm.reserve(0x2000).unwrap();
    assert_eq!(b.start(), 0x1000_1000);
    assert!(vmm.release(a.leak()));
    let c = vmm.reserve(0x800).unwrap();
    assert_eq!(c.start(), 0x1000_0000);
    assert_eq!(
        vmm.mark_as_reserved(Interval::new(0x1000_2000, 0x10)).unwrap_err(),
        VmmError::AlreadyAllocated
    );
    assert!(!vmm.release(Interval::new(0x1000_0000, 0x1000 + 1)));
    assert_eq!(VmmError::AlreadyAllocated.message(), "requested memory is already allocated");
    assert_eq!(VmmError::OutOfMemory.message(), "out of memory");
}

#[test]
fn resolve_map_at_fixed_and_anywhere() {
    let mut vmm = VirtualMemoryManager::new(0x4000, 0x4000);
    let fixed = vmm.resolve_map_at(MapAt::Fixed(0x5000), 0x1000).unwrap();
    assert_eq!(fixed.start(), 0x5000);
    let any = vmm.resolve_map_at(MapAt::Anywhere, 0x1000).unwrap();
    assert_eq!(any.start(), 0x4000);
    assert_eq!(vmm.resolve_map_at(MapAt::Fixed(0x5800), 0x10).unwrap_err(), VmmError::AlreadyAllocated);
    assert_eq!(vmm.resolve_map_at(MapAt::Anywhere, 0x3000).unwrap_err(), VmmError::OutOfMemory);
}

#[test]
fn higher_half_reserves_whole_pages() {
    let mut vmm = VirtualMemoryManager::new(0xFFFF_8000_0000_0000, 0x10_0000);
    let seg = VirtualMemoryHigherHalf::reserve(&mut vmm, 2).unwrap();
    assert_eq!(seg.start(), 0xFFFF_8000_0000_0000);
    assert_eq!(seg.size(), 0x2000);
    assert!(VirtualMemoryHigherHalf::reserve(&mut vmm, 0x1000).is_none());
    assert!(VirtualMemoryHigherHalf::mark_as_reserved(&mut vmm, Interval::new(0xFFFF_8000_0000_1000, 0x1000)).is_err());
    assert!(VirtualMemoryHigherHalf::mark_as_reserved(&mut vmm, Interval::new(0xFFFF_8000_0000_4000, 0x1000)).is_ok());
    assert!(VirtualMemoryHigherHalf::release(&mut vmm, Interval::new(0xFFFF_8000_0000_4000, 0x1000)));
    assert!(!VirtualMemoryHigherHalf::release(&mut vmm, Interval::new(0xFFFF_8000_0000_4000, 0x1000)));
}

#[test]
fn sign_extension() {
    assert_eq!(sign_extend_vaddr(0x0000_7FFF_FFFF_FFFF), 0x0000_7FFF_FFFF_FFFF);
    assert_eq!(sign_extend_vaddr(0x0000_8000_0000_0000), 0xFFFF_8000_0000_0000);
    assert_eq!(sign_extend_vaddr(0x1234_8000_0000_1000), 0xFFFF_8000_0000_1000);
    assert_eq!(sign_extend_vaddr(0xFFFF_0000_0000_1000), 0x1000);
}

#[test]
fn recursive_addresses() {
    assert_eq!(recursive_index_to_virtual_address(0), 0);
    assert_eq!(recursive_index_to_virtual_address(1), 0x80_4020_1000);
    assert_eq!(recursive_index_to_virtual_address(511), 0xFFFF_FFFF_FFFF_F000);
    assert_eq!(recursive_index_to_virtual_address(256), 0xFFFF_8040_2010_0000);
    assert_eq!(virt_addr_from_page_table_indices([257, 0, 0, 0], 0), 0xFFFF_8080_0000_0000);
    assert_eq!(virt_addr_from_page_table_indices([1, 2, 3, 4], 0x1234), 0x80_8060_4234);
}

#[test]
fn level4_table_helpers() {
    let mut current = vec![0u64; 512];
    current[300] = 0x5003;
    current[5] = 0x7003;
    current[511] = 0x9003;
    let mut table = copy_shared_entries(&current, 256);
    assert_eq!(table[5], 0);
    assert_eq!(table[300], 0x5003);
    assert_eq!(table[511], 0x9003);
    assert_eq!(last_unused_index(&table), Some(510));
    assert_eq!(unused_indices_from(&table, 508), vec![508, 509, 510]);
    assert_eq!(unused_indices_from(&table, 600), Vec::<usize>::new());
    set_entry(&mut table, 510, 0x42000, PRESENT | WRITABLE | NO_EXECUTE);
    assert_eq!(table[510], 0x8000_0000_0004_2003);
    assert_eq!(last_unused_index(&table), Some(509));
    assert_eq!(last_unused_index(&vec![1, 2, 3]), None);
}

#[test]
fn remap_whole_and_split_frames() {
    let t = CurrentMapping { frame: 0x20_0000, size: FrameSize::Size2MiB, offset: 0, flags: PRESENT | WRITABLE | HUGE_PAGE | USER_ACCESSIBLE };
    let (maps, next) = remap_step(0xFFFF_8000_0020_0000, 0xFFFF_8000_0100_0000, t);
    assert_eq!(maps, vec![Mapping { page: 0xFFFF_8000_0020_0000, frame: 0x20_0000, size: FrameSize::Size2MiB, flags: PRESENT | WRITABLE | HUGE_PAGE }]);
    assert_eq!(next, 0xFFFF_8000_0040_0000);

    // a 2 MiB frame entered 0x1F_E000 bytes in: two 4 KiB pieces are left
    let t = CurrentMapping { frame: 0x40_0000, size: FrameSize::Size2MiB, offset: 0x1F_E000, flags: PRESENT | HUGE_PAGE | NO_EXECUTE };
    let (maps, next) = remap_step(0x1000_0000, 0x2000_0000, t);
    assert_eq!(maps.len(), 2);
    assert_eq!(maps[0], Mapping { page: 0x1000_0000, frame: 0x5F_E000, size: FrameSize::Size4KiB, flags: PRESENT | NO_EXECUTE });
    assert_eq!(maps[1], Mapping { page: 0x1000_1000, frame: 0x5F_F000, size: FrameSize::Size4KiB, flags: PRESENT | NO_EXECUTE });
    assert_eq!(next, 0x1000_2000);

    // the region ends before the huge frame does
    let (maps, _) = remap_step(0x1000_0000, 0x1000_0800, t);
    assert_eq!(maps.len(), 1);
    assert_eq!(FrameSize::Size1GiB.bytes(), 0x4000_0000);
}

#[test]
fn flags_as_text() {
    assert_eq!(page_table_flags_to_string(PRESENT | WRITABLE | USER_ACCESSIBLE), "urwx");
    assert_eq!(page_table_flags_to_string(PRESENT | NO_EXECUTE), "-r--");
    assert_eq!(page_table_flags_to_string(0), "---x");
}

#[test]
fn lower_half_allocation_arithmetic() {
    assert_eq!(allocation_pages(1, Guarded::No), 1);
    assert_eq!(allocation_pages(4096, Guarded::No), 1);
    assert_eq!(allocation_pages(4097, Guarded::Yes), 4);
    assert_eq!(allocation_pages(0, Guarded::Yes), 2);
    assert_eq!(fixed_segment(0x1_0010, 0x2000, Guarded::No), (0x1_0000, 0x3000));
    assert_eq!(fixed_segment(0x1_0000, 0x1000, Guarded::Yes), (0xF000, 0x3000));
    assert_eq!(mapped_segment(0xF000, 0x3000, Guarded::Yes), (0x1_0000, 0x1000));
    assert_eq!(mapped_segment(0xF000, 0x3000, Guarded::No), (0xF000, 0x3000));
    assert_eq!(allocation_flags(UserAccessible::Yes), PRESENT | WRITABLE | NO_EXECUTE | USER_ACCESSIBLE);
    assert_eq!(allocation_flags(UserAccessible::No), PRESENT | WRITABLE | NO_EXECUTE);
    let f = PRESENT | WRITABLE | NO_EXECUTE | USER_ACCESSIBLE;
    assert_eq!(executable_flags(f), PRESENT | USER_ACCESSIBLE);
    assert_eq!(writable_flags(PRESENT), PRESENT | WRITABLE | NO_EXECUTE);
    assert_eq!(readonly_flags(f), PRESENT | NO_EXECUTE | USER_ACCESSIBLE);
}

fn usable(base: u64, length: u64) -> MemoryMapEntry {
    MemoryMapEntry { base, length, entry_type: EntryType::Usable }
}

#[test]
fn memory_map_entries() {
    assert_eq!(EntryType::from_raw(0), EntryType::Usable);
    assert_eq!(EntryType::from_raw(6), EntryType::ExecutableAndModules);
    assert_eq!(EntryType::from_raw(9), EntryType::Other(9));
    let entries = vec![
        usable(0x1000, 0x3000),
        MemoryMapEntry { base: 0x10_0000, length: 0x5000, entry_type: EntryType::ExecutableAndModules },
        MemoryMapEntry { base: 0x20_0000, length: 0x2000, entry_type: EntryType::BootloaderReclaimable },
        MemoryMapEntry { base: 0x30_0000, length: 0x1000, entry_type: EntryType::BootloaderReclaimable },
    ];
    assert_eq!(executable_region_length(&entries), Some(0x5000));
    assert_eq!(usable_memory(&entries), 0x3000);
    assert_eq!(usable_memory(&vec![usable(0, 0x1000), usable(0x8000, 0x2000)]), 0x3000);
    assert_eq!(filter_entries(&entries, EntryType::BootloaderReclaimable).len(), 2);
    assert_eq!(filter_entries(&entries, EntryType::BootloaderReclaimable)[1].base, 0x30_0000);
    let mut two = entries.clone();
    two.push(MemoryMapEntry { base: 0x40_0000, length: 0x1000, entry_type: EntryType::ExecutableAndModules });
    assert_eq!(executable_region_length(&two), None);
}

#[test]
fn bump_allocator_steps_through_usable_entries() {
    // usable entries are stepped through over their `length` bytes from `base` on
    let entries = vec![usable(0x1000, 0x2000), MemoryMapEntry { base: 0x8000, length: 0x1000, entry_type: EntryType::Reserved }, usable(0x9000, 0x2000)];
    let mut bump = PhysicalBumpAllocator::new(entries);
    assert_eq!(bump.allocate_frame(), Some(0x1000));
    assert_eq!(bump.allocate_frame(), Some(0x2000));
    assert_eq!(bump.next_frame(), 2);
    let frames = build_stage2_frames(&bump);
    assert_eq!(frames.len(), (0x9000 + 0x2000) / 4096);
    assert_eq!(frames[0], FrameState::Unusable);
    assert_eq!(frames[1], FrameState::Allocated);
    assert_eq!(frames[2], FrameState::Allocated);
    assert_eq!(frames[3], FrameState::Unusable);
    assert_eq!(frames[8], FrameState::Unusable);
    assert_eq!(frames[9], FrameState::Free);
    assert_eq!(frames[10], FrameState::Free);
    assert_eq!(bump.allocate_frame(), Some(0x9000));
    assert_eq!(bump.allocate_frame(), Some(0xA000));
    assert_eq!(bump.allocate_frame(), None);
    assert_eq!(bump.next_frame(), 4);
    assert_eq!(nth_addr(&vec![(0x1000, 0x3000), (0, 0)], 1), Some(0x2000));
}

#[test]
fn bump_allocator_hands_out_a_whole_region() {
    // one usable region of 8 KiB at 1 MiB holds two frames
    let mut bump = PhysicalBumpAllocator::new(vec![usable(0x10_0000, 0x2000)]);
    assert_eq!(bump.allocate_frame(), Some(0x10_0000));
    assert_eq!(bump.allocate_frame(), Some(0x10_1000));
    assert_eq!(bump.allocate_frame(), None);
}

#[test]
fn trivial_allocator_counts_every_call() {
    let mut a = TrivialPhysicalFrameAllocator::from(vec![usable(0x2000, 0x2000)]);
    assert_eq!(a.allocate_frame(), Some(0x2000));
    assert_eq!(a.allocate_frame(), Some(0x3000));
    assert_eq!(a.allocate_frame(), None);
}

fn regions() -> Vec<MemoryRegion> {
    vec![
        MemoryRegion { start: 0x0, end: 0x4000, kind: MemoryRegionKind::Usable },
        MemoryRegion { start: 0x4000, end: 0x6000, kind: MemoryRegionKind::Bootloader },
    ]
}

#[test]
fn frame_state_allocator_reuses_freed_frames() {
    let mut a = MemoryMapPhysicalFrameAllocator::from(&regions(), 1);
    assert_eq!(a.allocate_frame(), Some(0x1000));
    assert_eq!(a.allocate_frame(), Some(0x2000));
    // a freed frame below the search hint moves the hint back to it
    a.deallocate_frame(0x1000);
    assert_eq!(a.allocate_frame(), Some(0x1000));
    assert_eq!(a.allocate_frame(), Some(0x3000));
    assert_eq!(a.allocate_frame(), None);
    a.deallocate_frame(0x2000);
    assert_eq!(a.allocate_frame(), Some(0x2000));
}

#[test]
fn phys_frames_are_given_back_when_one_is_missing() {
    let mut mm = MemoryManager::new(Allocator::Stage2(MemoryMapPhysicalFrameAllocator::from(&regions(), 0)));
    assert_eq!(allocate_phys_frames(&mut mm, 5), Err(VmmError::OutOfMemory));
    // every frame came back: all four can still be had
    let frames = allocate_phys_frames(&mut mm, 4).unwrap();
    assert_eq!(frames, vec![0x0, 0x1000, 0x2000, 0x3000]);
    assert_eq!(mm.allocate_frame(), None);
    deallocate_frames(&mut mm, &frames);
    assert_eq!(mm.allocate_frame(), Some(0x0));
}

#[test]
fn first_stage_manager_hands_out_in_order() {
    let mut mm = MemoryManager::new(Allocator::Stage1(TrivialPhysicalFrameAllocator::from(vec![usable(0x5000, 0x2000)])));
    assert_eq!(allocate_phys_frames(&mut mm, 2), Ok(vec![0x5000, 0x6000]));
    assert_eq!(allocate_phys_frames(&mut mm, 1), Err(VmmError::OutOfMemory));
    // the first stage never takes frames back
    mm.deallocate_frame(0x5000);
    assert_eq!(mm.allocate_frame(), None);
}

#[test]
fn pm_objects() {
    let mut mm = MemoryManager::new(Allocator::Stage2(MemoryMapPhysicalFrameAllocator::from(&regions(), 0)));
    let lazy = PmObject::create(&mut mm, 0x10000, AllocationStrategy_::AllocateOnAccess).unwrap();
    assert!(lazy.phys_frames().is_empty());
    assert_eq!(lazy.allocation_strategy(), AllocationStrategy_::AllocateOnAccess);
    let now = PmObject::create(&mut mm, 0x1001, AllocationStrategy_::AllocateNow).unwrap();
    assert_eq!(now.phys_frames(), &[0x0, 0x1000]);
    assert_eq!(PmObject::create(&mut mm, 0x3000, AllocationStrategy_::AllocateNow).unwrap_err(), AllocationError::OutOfMemory);
    deallocate_pm_object(&now, &mut mm);
    let mut again = PmObject::create(&mut mm, 0x4000, AllocationStrategy_::AllocateNow).unwrap();
    assert_eq!(again.phys_frames(), &[0x0, 0x1000, 0x2000, 0x3000]);
    again.add_phys_frame(0x9000);
    assert_eq!(again.phys_frames().len(), 5);
}

#[test]
fn memory_backed_objects() {
    let mut mm = MemoryManager::new(Allocator::Stage2(MemoryMapPhysicalFrameAllocator::from(&regions(), 0)));
    let mut vmm = VirtualMemoryManager::new(0x10_0000, 0x10_0000);
    let v = create_memory_backed_vmo(&mut vmm, &mut mm, MapAt::Anywhere, 0x2000, AllocationStrategy::AllocateNow).unwrap();
    assert_eq!(v.interval.start(), 0x10_0000);
    assert_eq!(v.frames, vec![0x0, 0x1000]);
    assert!(v.should_map && v.should_zero && v.owns_frames);
    // not enough frames: the interval is released again
    assert_eq!(
        create_memory_backed_vmo(&mut vmm, &mut mm, MapAt::Fixed(0x20_0000 - 0x3000), 0x3000, AllocationStrategy::AllocateNow).unwrap_err(),
        VmmError::OutOfMemory
    );
    assert!(vmm.find_overlapping_element(0x20_0000 - 0x3000, 0x3000).is_none());
    let m = create_memory_backed_vmo(&mut vmm, &mut mm, MapAt::Fixed(0x10_2000), 0x1000, AllocationStrategy::MapNow(vec![0x7000])).unwrap();
    assert_eq!(m.frames, vec![0x7000]);
    assert!(m.should_map && !m.should_zero && !m.owns_frames);
    assert_eq!(
        create_memory_backed_vmo(&mut vmm, &mut mm, MapAt::Fixed(0x10_2000), 0x10, AllocationStrategy::AllocateOnAccess).unwrap_err(),
        VmmError::AlreadyAllocated
    );
}

#[test]
fn memory_backed_object_pages() {
    assert_eq!(page_frame_pairs(0x1000, 0x2000, &vec![0xA000, 0xB000, 0xC000]), vec![(0x1000, 0xA000), (0x2000, 0xB000)]);
    assert_eq!(page_frame_pairs(0x1000, 0x3000, &vec![0xA000]), vec![(0x1000, 0xA000)]);
    assert_eq!(map_error_to_vmm(MapError::FrameAllocationFailed), VmmError::OutOfMemory);
    assert_eq!(map_error_to_vmm(MapError::PageAlreadyMapped), VmmError::AlreadyAllocated);
    assert_eq!(map_error_to_vmm(MapError::ParentEntryHugePage), VmmError::AlreadyAllocated);
    assert_eq!(first_access_flags(PRESENT | WRITABLE), (PRESENT | WRITABLE, false));
    assert_eq!(first_access_flags(PRESENT | NO_EXECUTE), (PRESENT | WRITABLE, true));
    assert_eq!(object_pages(0x1800, 0x1000), (0x1000, 0x2000));
    assert_eq!(object_pages(0x1000, 0x1000), (0x1000, 0x1000));
}

#[test]
fn tables_of_new_address_spaces() {
    let mut current = vec![0u64; 512];
    current[1] = 0x1003;
    current[400] = 0x2003;
    current[511] = 0x3003;
    let (table, index) = new_level4_table(&current, 256, 0x8000).unwrap();
    assert_eq!(index, 510);
    assert_eq!(table[510], 0x8003);
    assert_eq!(table[1], 0);
    assert_eq!(table[400], 0x2003);
    let full: Vec<u64> = vec![1; 512];
    assert_eq!(new_level4_table(&full, 0, 0x8000), None);
    let t = upper_half_table(&current, 300, 0x9000);
    assert_eq!(t[300], 0x8000_0000_0000_9003);
    assert_eq!(t[1], 0);
    assert_eq!(t[511], 0x3003);
}

#[test]
fn planning_lower_half_allocations() {
    let mut vmm = VirtualMemoryManager::new(0x1000_0000, 0x10_0000);
    let p = plan_allocation(&mut vmm, Location::Anywhere, 5000, UserAccessible::Yes, Guarded::Yes).unwrap();
    assert_eq!((p.segment.start(), p.segment.size()), (0x1000_0000, 0x4000));
    assert_eq!((p.mapped_start, p.mapped_len), (0x1000_1000, 0x2000));
    assert_eq!(p.start, 0x1000_1000);
    assert_eq!(p.flags, PRESENT | WRITABLE | NO_EXECUTE | USER_ACCESSIBLE);
    let q = plan_allocation(&mut vmm, Location::Fixed(0x1000_8010), 0x10, UserAccessible::No, Guarded::No).unwrap();
    assert_eq!((q.segment.start(), q.segment.size()), (0x1000_8000, 0x1000));
    assert_eq!(q.start, 0x1000_8010);
    assert_eq!((q.mapped_start, q.mapped_len), (0x1000_8000, 0x1000));
    assert!(plan_allocation(&mut vmm, Location::Fixed(0x1000_8800), 0x10, UserAccessible::No, Guarded::No).is_none());
    assert!(plan_allocation(&mut vmm, Location::Anywhere, 0x20_0000, UserAccessible::No, Guarded::No).is_none());
}

#[test]
fn heap_usage_figures() {
    let memory: &'static mut [std::mem::MaybeUninit<u8>] = Box::leak(vec![std::mem::MaybeUninit::new(0u8); 4096].into_boxed_slice());
    let mut heap = linked_list_allocator::Heap::from_slice(memory);
    let size = kernel::mem::heap::size(&heap);
    assert!(size > 0 && size <= 4096);
    assert_eq!(kernel::mem::heap::used(&heap), 0);
    assert_eq!(kernel::mem::heap::free(&heap), size);
    let _block = heap.allocate_first_fit(std::alloc::Layout::from_size_align(64, 8).unwrap()).unwrap();
    assert!(kernel::mem::heap::used(&heap) >= 64);
    assert_eq!(kernel::mem::heap::Heap::free(&heap) + kernel::mem::heap::Heap::used(&heap), kernel::mem::heap::Heap::size(&heap));
}

#[test]
fn higher_half_starts_with_kernel_ranges_reserved() {
    let hhdm = 0xFFFF_8000_0000_0000u64;
    let entries = vec![
        usable(0x1000, 0x1000),
        MemoryMapEntry { base: 0x20_0000, length: 0x10_0000, entry_type: EntryType::ExecutableAndModules },
        MemoryMapEntry { base: 0x40_0000, length: 0x1000, entry_type: EntryType::BootloaderReclaimable },
    ];
    let heap_bottom = 0xFFFF_8080_0000_0000u64;
    let vmm = init_higher_half(510, &entries, hhdm, heap_bottom, 0x200_0000).unwrap();
    let rec = recursive_index_to_virtual_address(510);
    assert_eq!(vmm.find_overlapping_element(rec, 1).map(|i| (i.start(), i.size())), Some((rec, 0x80_0000_0000)));
    assert_eq!(vmm.find_overlapping_element(hhdm + 0x20_0000, 1).map(|i| (i.start(), i.size())), Some((hhdm + 0x20_0000, 0x10_0000)));
    assert_eq!(vmm.find_overlapping_element(hhdm + 0x40_0000, 1).map(|i| (i.start(), i.size())), Some((hhdm + 0x40_0000, 0x1000)));
    assert_eq!(vmm.find_overlapping_element(heap_bottom, 1).map(|i| (i.start(), i.size())), Some((heap_bottom, 0x200_0000)));
    // the usable entry is not reserved
    assert!(vmm.find_overlapping_element(hhdm + 0x1000, 0x1000).is_none());
}

#[test]
fn higher_half_refuses_overlapping_ranges() {
    let hhdm = 0xFFFF_8000_0000_0000u64;
    let entries = vec![
        MemoryMapEntry { base: 0x20_0000, length: 0x10_0000, entry_type: EntryType::ExecutableAndModules },
        MemoryMapEntry { base: 0x28_0000, length: 0x1000, entry_type: EntryType::BootloaderReclaimable },
    ];
    assert_eq!(init_higher_half(510, &entries, hhdm, 0xFFFF_8080_0000_0000, 0x1000).err(), Some(AlreadyReserved));
    // a heap over the kernel's range
    let entries = vec![MemoryMapEntry { base: 0x20_0000, length: 0x10_0000, entry_type: EntryType::ExecutableAndModules }];
    assert_eq!(init_higher_half(510, &entries, hhdm, hhdm + 0x20_1000, 0x1000).err(), Some(AlreadyReserved));
}

#[test]
fn reserve_bounds_are_checked() {
    let vmm = VirtualMemoryManager::new(0x1000_0000, 0x10000);
    assert!(vmm.reserve_in_bounds(0x1000));
    assert!(vmm.reserve_in_bounds(0x1001));
    // a range that ends past the lower half
    let top = VirtualMemoryManager::new(0x7FFF_FFFF_0000, 0x10000);
    assert!(!top.reserve_in_bounds(0x1000));
    // a size whose rounded-up value does not fit
    assert!(!vmm.reserve_in_bounds(usize::MAX));
    // the search passes a reserved interval and ends beyond canonical memory
    let mut near = VirtualMemoryManager::new(0x7FFF_FFFF_E000, 0x1000);
    let _ = near.mark_as_reserved(Interval::new(0x7FFF_FFFF_E000, 0x1000)).unwrap();
    assert!(!near.reserve_in_bounds(0x2000));
}

#[test]
fn reserved_intervals_are_listed_in_order() {
    let mut vmm = VirtualMemoryManager::new(0x1000_0000, 0x10000);
    let _ = vmm.mark_as_reserved(Interval::new(0x1000_4000, 0x1000)).unwrap();
    let _ = vmm.mark_as_reserved(Interval::new(0x1000_1000, 0x2000)).unwrap();
    let listed: Vec<(u64, usize)> = vmm.reserved().iter().map(|i| (i.start(), i.size())).collect();
    assert_eq!(listed, vec![(0x1000_1000, 0x2000), (0x1000_4000, 0x1000)]);
    assert_eq!(vmm.reserved_count(), 2);
}
