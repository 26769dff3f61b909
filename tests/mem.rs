use towboot::mem::{
    Allocation, AllocationError, MemoryEntry, MemoryKind, MemoryMove, MultibootAllocator,
    RelocationError, CEILING_200_MIB, CEILING_4_GIB,
};

fn entry(base_address: u64, length: u64, memory_type: MemoryKind) -> MemoryEntry {
    MemoryEntry { base_address, length, memory_type }
}

#[test]
fn page_count_rounds_up() {
    assert_eq!(Allocation::calculate_page_count(0), 0);
    assert_eq!(Allocation::calculate_page_count(1), 1);
    assert_eq!(Allocation::calculate_page_count(4095), 1);
    assert_eq!(Allocation::calculate_page_count(4097), 2);
    assert_eq!(Allocation::calculate_page_count(10000), 3);
}

#[test]
fn page_count_exact_multiple_has_no_extra_page() {
    assert_eq!(Allocation::calculate_page_count(4096), 1);
    assert_eq!(Allocation::calculate_page_count(8192), 2);
    assert_eq!(Allocation::calculate_page_count(409600), 100);
}

#[test]
fn ceiling_follows_quirk() {
    assert_eq!(Allocation::ceiling(true), CEILING_200_MIB);
    assert_eq!(Allocation::ceiling(true), 200 * 1024 * 1024);
    assert_eq!(Allocation::ceiling(false), CEILING_4_GIB);
    assert_eq!(Allocation::ceiling(false), u32::MAX as u64);
}

#[test]
fn pinned_allocation_is_in_place() {
    let a = Allocation::new_at(0x100000, 5000, Some(0x100000), None).unwrap();
    assert_eq!(a.ptr(), 0x100000);
    assert_eq!(a.len(), 5000);
    assert_eq!(a.pages(), 2);
    assert_eq!(a.should_be_at(), None);
}

#[test]
fn fallback_allocation_records_target_and_relocates() {
    let x = 0x100000;
    let mut a = Allocation::new_at(x, 100, None, Some(0x7000_0000)).unwrap();
    assert_eq!(a.should_be_at(), Some(x));
    assert_ne!(a.ptr(), x);
    assert_eq!(a.pages(), 1);
    let map = vec![
        entry(0, 0x9f000, MemoryKind::Available),
        entry(0x100000, 0x1000000, MemoryKind::Available),
    ];
    assert_eq!(a.relocation_check(&map), Ok(()));
    let m = a.move_to_where_it_should_be(&map).unwrap();
    assert_eq!(m, MemoryMove { source: 0x7000_0000, destination: x, length: 100 });
    assert_eq!(a.should_be_at(), None);
    assert_eq!(a.ptr(), x);
}

#[test]
fn failed_fallback_is_load_error() {
    assert_eq!(Allocation::new_at(0x100000, 100, None, None), Err(AllocationError::LoadError));
    assert_eq!(Allocation::new_under_4gb(100, None), Err(AllocationError::LoadError));
}

#[test]
fn under_4gb_allocation() {
    let a = Allocation::new_under_4gb(8193, Some(0x2000)).unwrap();
    assert_eq!(a.ptr(), 0x2000);
    assert_eq!(a.pages(), 3);
    assert_eq!(a.should_be_at(), None);
}

#[test]
fn contains_is_inclusive() {
    let a = Allocation::new_under_4gb(100, Some(0x1000)).unwrap();
    assert!(a.contains(0x1000, 4096));
    assert!(a.contains(0x1800, 0x800));
    assert!(!a.contains(0x1800, 0x801));
    assert!(!a.contains(0xfff, 1));
    assert!(a.contains(0x2000, 0));
}

#[test]
fn nothing_pending_means_no_move() {
    let mut a = Allocation::new_at(0x1000, 10, Some(0x1000), None).unwrap();
    assert_eq!(a.relocation_check(&[]), Ok(()));
    assert_eq!(a.move_to_where_it_should_be(&[]), None);
    assert_eq!(a.ptr(), 0x1000);
}

#[test]
fn relocation_without_region_is_refused() {
    let mut a = Allocation::new_at(0x100000, 0x2000, None, Some(0x5000)).unwrap();
    let map = vec![entry(0x100000, 0x1000, MemoryKind::Available)];
    assert_eq!(a.relocation_check(&map), Err(RelocationError::NoRegion));
    assert_eq!(a.ptr(), 0x5000);
    assert_eq!(a.should_be_at(), Some(0x100000));
}

#[test]
fn relocation_into_reserved_memory_is_refused() {
    let mut a = Allocation::new_at(0x100000, 0x2000, None, Some(0x5000)).unwrap();
    let reserved = entry(0xf0000, 0x20000, MemoryKind::Reserved);
    let map = vec![reserved, entry(0x100000, 0x10000, MemoryKind::Available)];
    assert_eq!(
        a.relocation_check(&map),
        Err(RelocationError::WouldOverwrite(reserved))
    );
    assert_eq!(a.should_be_at(), Some(0x100000));
}

#[test]
fn relocation_with_two_regions_is_refused() {
    let mut a = Allocation::new_at(0x100000, 0x2000, None, Some(0x5000)).unwrap();
    let map = vec![
        entry(0x100000, 0x10000, MemoryKind::Available),
        entry(0xf0000, 0x20000, MemoryKind::Available),
    ];
    assert_eq!(a.relocation_check(&map), Err(RelocationError::Ambiguous));
    assert_eq!(a.ptr(), 0x5000);
}

#[test]
fn adapter_translates_with_requested_length() {
    let mut m = MultibootAllocator::new();
    assert_eq!(m.allocate(0x4000, 24), Some(0x4000));
    assert_eq!(m.paddr_to_len(0x4000), Some(24));
    assert_eq!(m.paddr_to_len(0x4001), None);
}

#[test]
fn adapter_frees_exactly_once() {
    let mut m = MultibootAllocator::new();
    assert_eq!(m.allocate(0x4000, 24), Some(0x4000));
    assert_eq!(m.deallocate(0x4000), Some(24));
    // a second free is not allowed: the caller can see that it would not be
    assert_eq!(m.paddr_to_len(0x4000), None);
}

#[test]
fn adapter_ignores_null_free() {
    let mut m = MultibootAllocator::new();
    assert_eq!(m.deallocate(0), None);
}

#[test]
fn adapter_rejects_unusable_addresses() {
    let mut m = MultibootAllocator::new();
    assert_eq!(m.allocate(0, 8), None);
    assert_eq!(m.allocate(0x1_0000_0000, 8), None);
    assert_eq!(m.allocate(0x2_0000_0000, 8), None);
    assert_eq!(m.paddr_to_len(0x1_0000_0000), None);
    assert_eq!(m.allocate(0xFFFF_F000, 8), Some(0xFFFF_F000));
    assert_eq!(m.paddr_to_len(0xFFFF_F000), Some(8));
}
