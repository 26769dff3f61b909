//! Placing the kernel and its modules in memory.

use crate::mem::Allocation;
use vstd::prelude::*;

verus! {

/// The address fields of a kernel's Multiboot header.
#[derive(Debug, Clone, Copy, PartialEq, Eq, Structural)]
pub struct KernelAddresses {
    pub load_address: u32,
    pub load_end_address: u32,
    /// Zero where the kernel has no bss segment.
    pub bss_end_address: u32,
    pub entry_address: u32,
    /// Where the load segment begins in the image file.
    pub load_offset: u32,
}

/// Where the header says the kernel is to be loaded.
#[derive(Debug, Clone, Copy, PartialEq, Eq, Structural)]
pub enum Addresses {
    Multiboot(KernelAddresses),
    Elf,
}

/// Why a boot entry could not be prepared.
#[derive(Debug, Clone, Copy, PartialEq, Eq, Structural)]
pub enum LoadError {
    /// The image holds no valid Multiboot header.
    InvalidHeader,
    /// The header asks for ELF addresses.
    UnsupportedAddressScheme,
    /// The header's addresses end before they begin.
    InvalidAddresses,
    /// No memory could be allocated for the kernel.
    AllocationFailure,
    /// A module could not be read.
    ModuleLoadFailure,
}

/// Where and how the kernel goes in memory.
#[derive(Debug, Clone, Copy, PartialEq, Eq, Structural)]
pub struct KernelPlacement {
    /// Where the kernel's memory begins.
    pub load_address: u64,
    /// How many bytes of memory the kernel takes, bss included.
    pub length: usize,
    /// Where the load segment begins in the image file.
    pub load_offset: usize,
    /// How many bytes the load segment has.
    pub segment_length: usize,
}

/// Where the kernel's memory ends: at the end of bss, if there is one.
pub open spec fn memory_end(k: KernelAddresses) -> u32 {
    if k.bss_end_address == 0 {
        k.load_end_address
    } else {
        k.bss_end_address
    }
}

/// The placement of a kernel with header addresses `a`.
pub open spec fn placement_of(a: Addresses) -> Result<KernelPlacement, LoadError> {
    match a {
        Addresses::Elf => Err(LoadError::UnsupportedAddressScheme),
        Addresses::Multiboot(k) => if memory_end(k) < k.load_address || k.load_end_address < k.load_address {
            Err(LoadError::InvalidAddresses)
        } else {
            Ok(
                KernelPlacement {
                    load_address: k.load_address as u64,
                    length: (memory_end(k) - k.load_address) as usize,
                    load_offset: k.load_offset as usize,
                    segment_length: (k.load_end_address - k.load_address) as usize,
                },
            )
        },
    }
}

/// The byte at offset `i` of the kernel's memory: from the load segment of
/// `image` where the segment reaches so far, and zero after it.
pub open spec fn placed_byte(image: Seq<u8>, p: KernelPlacement, i: int) -> u8 {
    if i < p.segment_length && p.load_offset + i < image.len() {
        image[p.load_offset + i]
    } else {
        0
    }
}

/// Load segment and bss of a synthetic kernel: the first hundred bytes come
/// from the image at the load offset, the fifty after them are zero.
pub proof fn lemma_segment_then_bss(image: Seq<u8>, a: u32, offset: u32)
    requires
        a as int + 150 <= u32::MAX,
        offset as int + 100 <= image.len(),
    ensures
        ({
            let k = KernelAddresses {
                load_address: a,
                load_end_address: (a + 100) as u32,
                bss_end_address: (a + 150) as u32,
                entry_address: a,
                load_offset: offset,
            };
            let p = placement_of(Addresses::Multiboot(k))->Ok_0;
            &&& placement_of(Addresses::Multiboot(k)) is Ok
            &&& p.length == 150
            &&& forall|i: int| 0 <= i < 100 ==> placed_byte(image, p, i) == image[offset + i]
            &&& forall|i: int| 100 <= i < 150 ==> placed_byte(image, p, i) == 0
        }),
{
}

/// Work out where the kernel goes from its header's addresses.
pub fn kernel_placement(addresses: &Addresses) -> (r: Result<KernelPlacement, LoadError>)
    ensures
        r == placement_of(*addresses),
{
    match addresses {
        Addresses::Elf => Err(LoadError::UnsupportedAddressScheme),
        Addresses::Multiboot(k) => {
            let end = if k.bss_end_address == 0 { k.load_end_address } else { k.bss_end_address };
            if end < k.load_address || k.load_end_address < k.load_address {
                Err(LoadError::InvalidAddresses)
            } else {
                Ok(KernelPlacement {
                    load_address: k.load_address as u64,
                    length: (end - k.load_address) as usize,
                    load_offset: k.load_offset as usize,
                    segment_length: (k.load_end_address - k.load_address) as usize,
                })
            }
        },
    }
}

/// The kernel's memory as it is to be written: the load segment copied from
/// `image`, the rest filled with zeroes.
pub fn load_segment(image: &Vec<u8>, placement: &KernelPlacement) -> (r: Vec<u8>)
    ensures
        r.len() == placement.length,
        forall|i: int| 0 <= i < r.len() ==> #[trigger] r@[i] == placed_byte(image@, *placement, i),
{
    let mut r: Vec<u8> = Vec::new();
    let mut i: usize = 0;
    while i < placement.length
        invariant
            i <= placement.length,
            r.len() == i,
            forall|j: int| 0 <= j < i ==> #[trigger] r@[j] == placed_byte(image@, *placement, j),
        decreases placement.length - i,
    {
        let b: u8 = if i < placement.segment_length && placement.load_offset < image.len()
            && i < image.len() - placement.load_offset {
            image[placement.load_offset + i]
        } else {
            0
        };
        r.push(b);
        i = i + 1;
    }
    r
}


/// The kernel's memory as computed from its image, before it is placed.
pub struct PlacedKernel {
    pub placement: KernelPlacement,
    pub bytes: Vec<u8>,
}

/// Prepare a kernel for loading: check the header's addresses, then lay out
/// its memory from the image. The caller allocates the memory at the load
/// address, writes the bytes there and reads the modules.
pub fn prepare_entry(image: &Vec<u8>, addresses: &Addresses) -> (r: Result<PlacedKernel, LoadError>)
    ensures
        match placement_of(*addresses) {
            Err(e) => r matches Err(f) && f == e,
            Ok(p) => r matches Ok(k) && k.placement == p && k.bytes.len() == p.length
                && forall|i: int| 0 <= i < p.length ==> #[trigger] k.bytes@[i] == placed_byte(image@, p, i),
        },
{
    match kernel_placement(addresses) {
        Err(e) => Err(e),
        Ok(placement) => {
            let bytes = load_segment(image, &placement);
            Ok(PlacedKernel { placement, bytes })
        },
    }
}

/// Whether every module was read.
pub open spec fn all_read(reads: Seq<Option<Vec<u8>>>) -> bool {
    forall|i: int| 0 <= i < reads.len() ==> (#[trigger] reads[i]) is Some
}

/// Keep the modules only if every one of them was read, in their order.
pub fn collect_modules(reads: Vec<Option<Vec<u8>>>) -> (r: Result<Vec<Vec<u8>>, LoadError>)
    ensures
        match r {
            Ok(modules) => all_read(reads@) && modules.len() == reads.len() && forall|i: int|
                0 <= i < reads.len() ==> reads@[i] == Some(#[trigger] modules@[i]),
            Err(e) => !all_read(reads@) && e == LoadError::ModuleLoadFailure,
        },
{
    let ghost all = reads@;
    let mut rest = reads;
    let mut modules: Vec<Vec<u8>> = Vec::new();
    while rest.len() > 0
        invariant
            all == reads@,
            modules.len() + rest.len() == all.len(),
            rest@ == all.subrange(modules.len() as int, all.len() as int),
            forall|i: int| 0 <= i < modules.len() ==> all[i] == Some(#[trigger] modules@[i]),
        decreases rest.len(),
    {
        let next = rest.remove(0);
        match next {
            Some(bytes) => {
                modules.push(bytes);
                proof {
                    assert(rest@ =~= all.subrange(modules.len() as int, all.len() as int));
                }
            },
            None => {
                assert(all[modules.len() as int] is None);
                return Err(LoadError::ModuleLoadFailure);
            },
        }
    }
    assert forall|i: int| 0 <= i < all.len() implies (#[trigger] all[i]) is Some by {
        assert(all[i] == Some(modules@[i]));
    }
    Ok(modules)
}

/// A kernel in memory, with its header's addresses and its modules.
pub struct PreparedEntry {
    pub kernel: Allocation,
    pub addresses: KernelAddresses,
    pub modules: Vec<Vec<u8>>,
}

impl PreparedEntry {
    /// Bundle the placed kernel with its modules, if every module was read.
    /// Otherwise no module is kept and the kernel's memory is handed back to
    /// be released.
    pub fn new(kernel: Allocation, addresses: KernelAddresses, reads: Vec<Option<Vec<u8>>>) -> (r: Result<PreparedEntry, (LoadError, Allocation)>)
        ensures
            match r {
                Ok(p) => all_read(reads@) && p.kernel == kernel && p.addresses == addresses
                    && p.modules.len() == reads.len() && forall|i: int|
                    0 <= i < reads.len() ==> reads@[i] == Some(#[trigger] p.modules@[i]),
                Err((e, k)) => !all_read(reads@) && e == LoadError::ModuleLoadFailure && k == kernel,
            },
    {
        match collect_modules(reads) {
            Ok(modules) => Ok(PreparedEntry { kernel, addresses, modules }),
            Err(e) => Err((e, kernel)),
        }
    }
}

} // verus!
