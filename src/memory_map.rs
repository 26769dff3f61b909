//! Translation of the firmware's memory map into the kernel's.

use crate::mem::{MemoryEntry, MemoryKind, PAGE_SIZE};
use vstd::prelude::*;

verus! {

/// Firmware memory types, by their numbers in the UEFI specification.
pub const LOADER_CODE: u32 = 1;
pub const LOADER_DATA: u32 = 2;
pub const BOOT_SERVICES_CODE: u32 = 3;
pub const BOOT_SERVICES_DATA: u32 = 4;
pub const RUNTIME_SERVICES_CODE: u32 = 5;
pub const RUNTIME_SERVICES_DATA: u32 = 6;
pub const CONVENTIONAL: u32 = 7;
pub const UNUSABLE: u32 = 8;
pub const ACPI_RECLAIM: u32 = 9;
pub const ACPI_NON_VOLATILE: u32 = 10;
pub const MMIO: u32 = 11;
pub const MMIO_PORT_SPACE: u32 = 12;
pub const PAL_CODE: u32 = 13;
pub const PERSISTENT_MEMORY: u32 = 14;

/// "Lower memory" in KiB: the loader would not run with less.
pub const LOWER_MEMORY_KIB: u32 = 640;

/// Where "upper memory" begins.
pub const UPPER_MEMORY_START: u64 = 1048576;

/// One region as the firmware reports it.
#[derive(Debug, Clone, Copy, PartialEq, Eq, Structural)]
pub struct MemoryDescriptor {
    pub ty: u32,
    pub phys_start: u64,
    pub page_count: u64,
}

/// What the kernel may do with memory of firmware type `ty`.
pub open spec fn kind_of(ty: u32) -> MemoryKind {
    if ty == LOADER_CODE || ty == LOADER_DATA || ty == BOOT_SERVICES_CODE || ty == BOOT_SERVICES_DATA
        || ty == CONVENTIONAL || ty == PERSISTENT_MEMORY {
        MemoryKind::Available
    } else if ty == UNUSABLE {
        MemoryKind::Defect
    } else if ty == ACPI_RECLAIM {
        MemoryKind::ACPI
    } else if ty == ACPI_NON_VOLATILE {
        MemoryKind::NVS
    } else {
        MemoryKind::Reserved
    }
}

/// The region's end fits in an address.
pub open spec fn descriptor_fits(d: MemoryDescriptor) -> bool {
    d.phys_start + d.page_count * PAGE_SIZE <= u64::MAX
}

/// The kernel's entry for one firmware region.
pub open spec fn entry_of(d: MemoryDescriptor) -> MemoryEntry {
    MemoryEntry {
        base_address: d.phys_start,
        length: (d.page_count * PAGE_SIZE) as u64,
        memory_type: kind_of(d.ty),
    }
}

/// Whether `next` continues `last`: same type, and it begins where `last` ends.
pub open spec fn joins(last: MemoryEntry, next: MemoryEntry) -> bool {
    last.memory_type == next.memory_type && next.base_address == last.base_address + last.length
}

/// `last` grown by the length of `next`.
pub open spec fn extended(last: MemoryEntry, next: MemoryEntry) -> MemoryEntry {
    MemoryEntry { length: (last.length + next.length) as u64, ..last }
}

/// The entries of `s`, in order, with each entry that continues the one
/// before it merged into that one.
pub open spec fn merged(s: Seq<MemoryEntry>) -> Seq<MemoryEntry>
    decreases s.len(),
{
    if s.len() == 0 {
        Seq::empty()
    } else {
        let prev = merged(s.drop_last());
        let e = s.last();
        if prev.len() > 0 && joins(prev.last(), e) {
            prev.update(prev.len() - 1, extended(prev.last(), e))
        } else {
            prev.push(e)
        }
    }
}

proof fn lemma_merged_single(a: MemoryEntry)
    ensures
        merged(seq![a]) == seq![a],
{
    assert(seq![a].drop_last() =~= Seq::<MemoryEntry>::empty());
    assert(merged(Seq::<MemoryEntry>::empty()) == Seq::<MemoryEntry>::empty());
    assert(Seq::<MemoryEntry>::empty().push(a) =~= seq![a]);
}

/// Merging never makes more entries than it was given.
pub proof fn lemma_merged_not_longer(s: Seq<MemoryEntry>)
    ensures
        merged(s).len() <= s.len(),
    decreases s.len(),
{
    if s.len() > 0 {
        lemma_merged_not_longer(s.drop_last());
    }
}

/// The merge of a prefix has no more entries than the merge of the whole.
proof fn lemma_merged_prefix_not_longer(s: Seq<MemoryEntry>, i: int)
    requires
        0 <= i <= s.len(),
    ensures
        merged(s.subrange(0, i)).len() <= merged(s).len(),
    decreases s.len() - i,
{
    if i == s.len() {
        assert(s.subrange(0, i) =~= s);
    } else {
        assert(s.subrange(0, i + 1).drop_last() =~= s.subrange(0, i));
        lemma_merged_prefix_not_longer(s, i + 1);
    }
}

/// Two adjacent regions of one type become one entry with both lengths.
pub proof fn lemma_adjacent_same_type_merge(a: MemoryEntry, b: MemoryEntry)
    requires
        a.memory_type == b.memory_type,
        b.base_address == a.base_address + a.length,
    ensures
        merged(seq![a, b]) == seq![extended(a, b)],
{
    assert(seq![a, b].drop_last() =~= seq![a]);
    lemma_merged_single(a);
    assert(merged(seq![a, b]) =~= seq![extended(a, b)]);
}

/// Two regions of different types stay apart, adjacent or not.
pub proof fn lemma_different_types_stay_apart(a: MemoryEntry, b: MemoryEntry)
    requires
        a.memory_type != b.memory_type,
    ensures
        merged(seq![a, b]) == seq![a, b],
{
    assert(seq![a, b].drop_last() =~= seq![a]);
    lemma_merged_single(a);
    assert(merged(seq![a, b]) =~= seq![a, b]);
}

/// Two regions of one type with a gap or an overlap between them stay apart.
pub proof fn lemma_separate_regions_stay_apart(a: MemoryEntry, b: MemoryEntry)
    requires
        b.base_address != a.base_address + a.length,
    ensures
        merged(seq![a, b]) == seq![a, b],
{
    assert(seq![a, b].drop_last() =~= seq![a]);
    lemma_merged_single(a);
    assert(merged(seq![a, b]) =~= seq![a, b]);
}

/// What the kernel may do with memory of firmware type `ty`.
pub fn classify(ty: u32) -> (r: MemoryKind)
    ensures
        r == kind_of(ty),
{
    if ty == LOADER_CODE || ty == LOADER_DATA || ty == BOOT_SERVICES_CODE || ty == BOOT_SERVICES_DATA {
        // after the kernel has started, no-one needs the loader's code or data
        MemoryKind::Available
    } else if ty == RUNTIME_SERVICES_CODE || ty == RUNTIME_SERVICES_DATA {
        // the kernel may want to use the runtime services
        MemoryKind::Reserved
    } else if ty == CONVENTIONAL || ty == PERSISTENT_MEMORY {
        MemoryKind::Available
    } else if ty == UNUSABLE {
        MemoryKind::Defect
    } else if ty == ACPI_RECLAIM {
        MemoryKind::ACPI
    } else if ty == ACPI_NON_VOLATILE {
        MemoryKind::NVS
    } else {
        // MMIO, port space, PAL code and anything unknown
        MemoryKind::Reserved
    }
}

/// Translate `descriptors` into `buf`, merging each region into the one
/// before it where it continues it, and return how many entries were written.
pub fn translate_memory_map(descriptors: &Vec<MemoryDescriptor>, buf: &mut Vec<MemoryEntry>) -> (count: usize)
    requires
        old(buf).len() >= merged(descriptors@.map_values(|d| entry_of(d))).len(),
        forall|i: int| 0 <= i < descriptors.len() ==> descriptor_fits(#[trigger] descriptors@[i]),
    ensures
        final(buf).len() == old(buf).len(),
        count <= descriptors.len(),
        count <= final(buf).len(),
        count == merged(descriptors@.map_values(|d| entry_of(d))).len(),
        final(buf)@.subrange(0, count as int) == merged(descriptors@.map_values(|d| entry_of(d))),
{
    let ghost entries = descriptors@.map_values(|d: MemoryDescriptor| entry_of(d));
    let mut count: usize = 0;
    proof {
        assert(entries.subrange(0, 0) =~= Seq::<MemoryEntry>::empty());
        lemma_merged_not_longer(entries);
    }
    let mut i: usize = 0;
    while i < descriptors.len()
        invariant
            entries == descriptors@.map_values(|d: MemoryDescriptor| entry_of(d)),
            forall|j: int| 0 <= j < descriptors.len() ==> descriptor_fits(#[trigger] descriptors@[j]),
            i <= descriptors.len(),
            count <= i,
            buf.len() == old(buf).len(),
            buf.len() >= merged(entries).len(),
            count == merged(entries.subrange(0, i as int)).len(),
            count <= buf.len(),
            buf@.subrange(0, count as int) == merged(entries.subrange(0, i as int)),
            i > 0 ==> count > 0 && buf@[count - 1].base_address + buf@[count - 1].length
                == descriptors@[i - 1].phys_start + descriptors@[i - 1].page_count * PAGE_SIZE,
        decreases descriptors.len() - i,
    {
        let d = descriptors[i];
        let next = MemoryEntry {
            base_address: d.phys_start,
            length: d.page_count * 4096,
            memory_type: classify(d.ty),
        };
        proof {
            assert(descriptor_fits(descriptors@[i as int]));
            assert(entries[i as int] == next);
            assert(entries.subrange(0, i + 1).drop_last() =~= entries.subrange(0, i as int));
            assert(entries.subrange(0, i + 1).last() == next);
        }
        let ghost prev = buf@.subrange(0, count as int);
        proof {
            lemma_merged_prefix_not_longer(entries, i + 1);
            lemma_merged_not_longer(entries);
        }
        if count > 0 && buf[count - 1].memory_type == next.memory_type
            && next.base_address as u128 == buf[count - 1].base_address as u128 + buf[count - 1].length as u128 {
            let last = buf[count - 1];
            let joined = MemoryEntry {
                base_address: last.base_address,
                length: last.length + next.length,
                memory_type: last.memory_type,
            };
            buf.set(count - 1, joined);
            proof {
                assert(prev.last() == last);
                assert(buf@.subrange(0, count as int) =~= prev.update(prev.len() - 1, extended(last, next)));
            }
        } else {
            buf.set(count, next);
            proof {
                assert(count > 0 ==> prev.last() == buf@[count - 1]);
                assert(buf@.subrange(0, count + 1) =~= prev.push(next));
            }
            count = count + 1;
        }
        i = i + 1;
    }
    assert(entries.subrange(0, descriptors.len() as int) =~= entries);
    count
}


/// Why the memory summary for the kernel could not be made.
#[derive(Debug, Clone, Copy, PartialEq, Eq, Structural)]
pub enum MapError {
    /// No entry begins at 1 MiB.
    NoUpperMemory,
    /// The entry at 1 MiB is too long to give in KiB as a 32-bit number.
    UpperMemoryTooLarge,
}

/// The memory map prepared for the kernel.
#[derive(Debug, Clone, Copy, PartialEq, Eq, Structural)]
pub struct MemoryInformation {
    /// How many entries of the buffer were written.
    pub count: usize,
    /// Lower memory in KiB.
    pub lower: u32,
    /// Upper memory in KiB.
    pub upper: u32,
}

/// The first entry of `s` that begins at `base`.
pub open spec fn first_at(s: Seq<MemoryEntry>, base: u64) -> Option<MemoryEntry>
    decreases s.len(),
{
    if s.len() == 0 {
        None
    } else if s[0].base_address == base {
        Some(s[0])
    } else {
        first_at(s.drop_first(), base)
    }
}

/// Upper memory in KiB: the length of the first entry that begins at 1 MiB.
pub open spec fn upper_memory_of(s: Seq<MemoryEntry>) -> Result<u32, MapError> {
    match first_at(s, UPPER_MEMORY_START) {
        None => Err(MapError::NoUpperMemory),
        Some(e) => if e.length / 1024 <= u32::MAX {
            Ok((e.length / 1024) as u32)
        } else {
            Err(MapError::UpperMemoryTooLarge)
        },
    }
}

/// Whether the first `count` entries of `map` give upper memory.
pub fn upper_memory_check(map: &[MemoryEntry], count: usize) -> (r: Result<(), MapError>)
    requires
        count <= map.len(),
    ensures
        r == match upper_memory_of(map@.subrange(0, count as int)) {
            Ok(_) => Ok::<(), MapError>(()),
            Err(e) => Err::<(), MapError>(e),
        },
{
    let ghost s = map@.subrange(0, count as int);
    let mut i: usize = 0;
    assert(s.subrange(0, count as int) =~= s);
    while i < count
        invariant
            s == map@.subrange(0, count as int),
            count <= map.len(),
            i <= count,
            first_at(s, UPPER_MEMORY_START) == first_at(s.subrange(i as int, count as int), UPPER_MEMORY_START),
        decreases count - i,
    {
        proof {
            assert(s.subrange(i as int, count as int).drop_first() =~= s.subrange(i + 1, count as int));
        }
        let e = map[i];
        if e.base_address == UPPER_MEMORY_START {
            if e.length / 1024 <= u32::MAX as u64 {
                return Ok(());
            } else {
                return Err(MapError::UpperMemoryTooLarge);
            }
        }
        i = i + 1;
    }
    Err(MapError::NoUpperMemory)
}

/// Upper memory in KiB, from the first `count` entries of `map`. One of them
/// must begin at 1 MiB: the kernel cannot be booted without it.
pub fn upper_memory(map: &[MemoryEntry], count: usize) -> (r: u32)
    requires
        count <= map.len(),
        upper_memory_of(map@.subrange(0, count as int)) is Ok,
    ensures
        upper_memory_of(map@.subrange(0, count as int)) == Ok::<u32, MapError>(r),
{
    let ghost s = map@.subrange(0, count as int);
    let mut i: usize = 0;
    assert(s.subrange(0, count as int) =~= s);
    while i < count
        invariant
            s == map@.subrange(0, count as int),
            count <= map.len(),
            i <= count,
            first_at(s, UPPER_MEMORY_START) == first_at(s.subrange(i as int, count as int), UPPER_MEMORY_START),
            upper_memory_of(s) is Ok,
        decreases count - i,
    {
        proof {
            assert(s.subrange(i as int, count as int).drop_first() =~= s.subrange(i + 1, count as int));
        }
        let e = map[i];
        if e.base_address == UPPER_MEMORY_START {
            return (e.length / 1024) as u32;
        }
        i = i + 1;
    }
    assert(s.subrange(count as int, count as int).len() == 0);
    0
}

/// Pass the memory map to the kernel: translate `descriptors` into `buf` and
/// work out lower and upper memory. The merged map must have an entry at
/// 1 MiB that gives upper memory; `upper_memory_check` tells whether it has.
pub fn prepare_information(descriptors: &Vec<MemoryDescriptor>, buf: &mut Vec<MemoryEntry>) -> (r: MemoryInformation)
    requires
        old(buf).len() >= merged(descriptors@.map_values(|d| entry_of(d))).len(),
        forall|i: int| 0 <= i < descriptors.len() ==> descriptor_fits(#[trigger] descriptors@[i]),
        upper_memory_of(merged(descriptors@.map_values(|d| entry_of(d)))) is Ok,
    ensures
        ({
            let m = merged(descriptors@.map_values(|d| entry_of(d)));
            &&& final(buf).len() == old(buf).len()
            &&& final(buf)@.subrange(0, m.len() as int) == m
            &&& upper_memory_of(m) == Ok::<u32, MapError>(r.upper)
            &&& r.count == m.len()
            &&& r.lower == LOWER_MEMORY_KIB
        }),
{
    let count = translate_memory_map(descriptors, buf);
    let upper = upper_memory(buf.as_slice(), count);
    MemoryInformation { count, lower: LOWER_MEMORY_KIB, upper }
}

} // verus!
