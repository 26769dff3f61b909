use towboot::mem::{MemoryEntry, MemoryKind};
use towboot::memory_map::{
    classify, prepare_information, translate_memory_map, upper_memory, upper_memory_check,
    MapError, MemoryDescriptor, MemoryInformation,
};

fn desc(ty: u32, phys_start: u64, page_count: u64) -> MemoryDescriptor {
    MemoryDescriptor { ty, phys_start, page_count }
}

fn blank() -> MemoryEntry {
    MemoryEntry { base_address: 0, length: 0, memory_type: MemoryKind::Reserved }
}

#[test]
fn classification_table() {
    assert_eq!(classify(0), MemoryKind::Reserved);
    for ty in [1, 2, 3, 4, 7, 14] {
        assert_eq!(classify(ty), MemoryKind::Available);
    }
    for ty in [5, 6, 11, 12, 13, 15, 0x8000_0000] {
        assert_eq!(classify(ty), MemoryKind::Reserved);
    }
    assert_eq!(classify(8), MemoryKind::Defect);
    assert_eq!(classify(9), MemoryKind::ACPI);
    assert_eq!(classify(10), MemoryKind::NVS);
}

#[test]
fn adjacent_same_type_regions_merge() {
    let d = vec![desc(7, 0x100000, 16), desc(2, 0x110000, 4)];
    let mut buf = vec![blank(); 4];
    let n = translate_memory_map(&d, &mut buf);
    assert_eq!(n, 1);
    assert_eq!(
        buf[0],
        MemoryEntry { base_address: 0x100000, length: 20 * 4096, memory_type: MemoryKind::Available }
    );
}

#[test]
fn adjacent_different_type_regions_stay_apart() {
    let d = vec![desc(7, 0x100000, 16), desc(9, 0x110000, 4)];
    let mut buf = vec![blank(); 2];
    assert_eq!(translate_memory_map(&d, &mut buf), 2);
    assert_eq!(buf[0].length, 16 * 4096);
    assert_eq!(buf[1], MemoryEntry { base_address: 0x110000, length: 4 * 4096, memory_type: MemoryKind::ACPI });
}

#[test]
fn separate_same_type_regions_stay_apart() {
    let d = vec![desc(7, 0x100000, 16), desc(7, 0x111000, 4)];
    let mut buf = vec![blank(); 2];
    assert_eq!(translate_memory_map(&d, &mut buf), 2);
    assert_eq!(buf[1].base_address, 0x111000);
}

#[test]
fn empty_map_writes_nothing() {
    let mut buf = vec![blank(); 1];
    assert_eq!(translate_memory_map(&vec![], &mut buf), 0);
    assert_eq!(buf[0], blank());
}

#[test]
fn upper_memory_in_kib() {
    let map = vec![
        MemoryEntry { base_address: 0, length: 0xa0000, memory_type: MemoryKind::Available },
        MemoryEntry { base_address: 1_048_576, length: 16_777_216, memory_type: MemoryKind::Available },
    ];
    assert_eq!(upper_memory_check(&map, 2), Ok(()));
    assert_eq!(upper_memory(&map, 2), 16384);
    assert_eq!(upper_memory_check(&map, 1), Err(MapError::NoUpperMemory));
}

#[test]
fn upper_memory_too_large() {
    let map = vec![MemoryEntry {
        base_address: 1_048_576,
        length: 1 << 50,
        memory_type: MemoryKind::Available,
    }];
    assert_eq!(upper_memory_check(&map, 1), Err(MapError::UpperMemoryTooLarge));
}

#[test]
fn prepare_information_merges_and_summarises() {
    let d = vec![
        desc(7, 0, 160),
        desc(0, 0xa0000, 96),
        desc(2, 0x100000, 1024),
        desc(7, 0x500000, 3072),
        desc(5, 0x1100000, 16),
    ];
    let mut buf = vec![blank(); 5];
    let info = prepare_information(&d, &mut buf);
    assert_eq!(info, MemoryInformation { count: 4, lower: 640, upper: 16384 });
    assert_eq!(buf[2], MemoryEntry { base_address: 0x100000, length: 16 * 1024 * 1024, memory_type: MemoryKind::Available });
    assert_eq!(buf[3].memory_type, MemoryKind::Reserved);
    assert_eq!(buf[4], blank());
}

#[test]
fn buffer_as_long_as_merged_map_suffices() {
    let d = vec![desc(7, 0x100000, 16), desc(7, 0x110000, 16), desc(2, 0x120000, 16)];
    let mut buf = vec![blank(); 1];
    assert_eq!(translate_memory_map(&d, &mut buf), 1);
    assert_eq!(buf[0].length, 48 * 4096);
}

#[test]
fn prepare_information_without_upper_memory() {
    let d = vec![desc(7, 0, 160)];
    let mut buf = vec![blank(); 1];
    assert_eq!(translate_memory_map(&d, &mut buf), 1);
    assert_eq!(upper_memory_check(&buf, 1), Err(MapError::NoUpperMemory));
    assert_eq!(buf[0].length, 160 * 4096);
}
