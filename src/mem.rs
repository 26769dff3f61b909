//! Tracked page allocations and the allocation table behind the header parser.

use std::collections::BTreeMap;
use vstd::prelude::*;

verus! {

/// Size of one firmware page in bytes.
pub const PAGE_SIZE: usize = 4096;

/// Addresses at or above this value (4 GiB) cannot be handed to the header parser.
pub const PARSER_ADDRESS_LIMIT: u64 = 0x1_0000_0000;

/// Allocation ceiling when modules must stay below 200 MiB.
pub const CEILING_200_MIB: u64 = 209715200;

/// Allocation ceiling otherwise: below 4 GiB.
pub const CEILING_4_GIB: u64 = 0xFFFF_FFFF;

/// The number of pages of `page_size` bytes needed to hold `length` bytes.
pub open spec fn ceil_div(length: nat, page_size: nat) -> nat
    recommends
        page_size > 0,
{
    ((length + page_size - 1) / (page_size as int)) as nat
}

/// `ceil_div` is the least page count whose pages hold `length` bytes, and a
/// length that is a whole number of pages needs no extra page.
pub proof fn lemma_page_count_is_ceiling(length: nat, page_size: nat)
    requires
        page_size > 0,
    ensures
        ceil_div(length, page_size) * page_size >= length,
        length > 0 ==> (ceil_div(length, page_size) - 1) * page_size < length,
        length % page_size == 0 ==> ceil_div(length, page_size) == length / page_size,
{
    let l = length as int;
    let p = page_size as int;
    let n = ((l + p - 1) / p) as int;
    let q = l / p;
    let r = l % p;
    assert(l == q * p + r && 0 <= r < p) by (nonlinear_arith)
        requires
            p > 0,
            q == l / p,
            r == l % p,
    ;
    assert(r == 0 ==> n == q) by (nonlinear_arith)
        requires
            p > 0,
            l == q * p + r,
            n == (l + p - 1) / p,
    ;
    assert(r != 0 ==> n == q + 1) by (nonlinear_arith)
        requires
            p > 0,
            l == q * p + r,
            0 <= r < p,
            n == (l + p - 1) / p,
    ;
    assert(n >= 0 && n * p >= l) by (nonlinear_arith)
        requires
            l == q * p + r,
            q >= 0,
            r == 0 ==> n == q,
            r != 0 ==> n == q + 1,
            0 <= r < p,
    ;
    assert(l > 0 ==> (n - 1) * p < l) by (nonlinear_arith)
        requires
            l == q * p + r,
            r == 0 ==> n == q,
            r != 0 ==> n == q + 1,
            0 <= r < p,
    ;
}

/// Why an allocation could not be made.
#[derive(Debug, Clone, Copy, PartialEq, Eq, Structural)]
pub enum AllocationError {
    /// The firmware found no pages below the ceiling.
    LoadError,
}

/// A region of memory as the kernel will see it in its memory map.
#[derive(Debug, Clone, Copy, PartialEq, Eq, Structural)]
pub enum MemoryKind {
    Available,
    Reserved,
    ACPI,
    NVS,
    Defect,
}

/// One entry of the memory map handed to the kernel.
#[derive(Debug, Clone, Copy, PartialEq, Eq, Structural)]
pub struct MemoryEntry {
    pub base_address: u64,
    pub length: u64,
    pub memory_type: MemoryKind,
}

/// Whether `entry` holds the whole range `[begin, begin + length)`.
pub open spec fn covers(entry: MemoryEntry, begin: int, length: int) -> bool {
    entry.base_address <= begin && entry.base_address + entry.length >= begin + length
}

/// The first entry of `s` that holds `[begin, begin + length)`.
pub open spec fn first_covering(s: Seq<MemoryEntry>, begin: int, length: int) -> Option<MemoryEntry>
    decreases s.len(),
{
    if s.len() == 0 {
        None
    } else if covers(s[0], begin, length) {
        Some(s[0])
    } else {
        first_covering(s.drop_first(), begin, length)
    }
}

/// How many entries of `s` hold `[begin, begin + length)`.
pub open spec fn count_covering(s: Seq<MemoryEntry>, begin: int, length: int) -> nat
    decreases s.len(),
{
    if s.len() == 0 {
        0
    } else {
        (if covers(s[0], begin, length) { 1nat } else { 0nat }) + count_covering(
            s.drop_first(),
            begin,
            length,
        )
    }
}

/// Why a deferred move was refused.
#[derive(Debug, Clone, Copy, PartialEq, Eq, Structural)]
pub enum RelocationError {
    /// No entry of the memory map holds the target range.
    NoRegion,
    /// The entry that holds the target range is not available memory.
    WouldOverwrite(MemoryEntry),
    /// More than one entry holds the target range.
    Ambiguous,
}

/// A raw copy of `length` bytes that the caller has to perform.
#[derive(Debug, Clone, Copy, PartialEq, Eq, Structural)]
pub struct MemoryMove {
    pub source: u64,
    pub destination: u64,
    pub length: usize,
}

/// What an allocation records.
#[derive(Debug, Clone, Copy, PartialEq, Eq, Structural)]
pub struct AllocationRecord {
    /// Where the pages are now.
    pub ptr: u64,
    /// How many bytes were asked for.
    pub len: usize,
    /// How many pages were allocated.
    pub pages: usize,
    /// Where the memory should have been allocated, while it is somewhere else.
    pub should_be_at: Option<u64>,
}

/// Memory that was allocated in whole pages from the firmware. Only the
/// move to where it should be changes it.
#[derive(Debug, PartialEq, Eq, Structural)]
pub struct Allocation {
    ptr: u64,
    len: usize,
    pages: usize,
    should_be_at: Option<u64>,
}

impl View for Allocation {
    type V = AllocationRecord;

    closed spec fn view(&self) -> AllocationRecord {
        AllocationRecord { ptr: self.ptr, len: self.len, pages: self.pages, should_be_at: self.should_be_at }
    }
}

/// What `Allocation::new_at` gives for a request of `size` bytes at `address`,
/// given the outcome of the pinned allocation and, where that failed, of the
/// allocation below the ceiling.
pub open spec fn new_at_outcome(address: u64, size: usize, pinned: Option<u64>, fallback: Option<u64>) -> Result<AllocationRecord, AllocationError> {
    let pages = ceil_div(size as nat, PAGE_SIZE as nat) as usize;
    match pinned {
        Some(p) => Ok(AllocationRecord { ptr: p, len: size, pages, should_be_at: None }),
        None => match fallback {
            Some(q) => Ok(AllocationRecord { ptr: q, len: size, pages, should_be_at: Some(address) }),
            None => Err(AllocationError::LoadError),
        },
    }
}

/// Whether `r` is the allocation, or the error, that `expected` describes.
pub open spec fn outcome_is(r: Result<Allocation, AllocationError>, expected: Result<AllocationRecord, AllocationError>) -> bool {
    match r {
        Ok(a) => expected == Ok::<AllocationRecord, AllocationError>(a@) && a.wf(),
        Err(e) => expected == Err::<AllocationRecord, AllocationError>(e),
    }
}

/// The allocation once its pending move has been made.
pub open spec fn relocated(a: AllocationRecord) -> AllocationRecord {
    match a.should_be_at {
        Some(target) => AllocationRecord { ptr: target, should_be_at: None, ..a },
        None => a,
    }
}

/// What checking the pending move of `a` against memory map `s` finds.
pub open spec fn relocation_verdict(a: AllocationRecord, s: Seq<MemoryEntry>) -> Result<(), RelocationError> {
    match a.should_be_at {
        None => Ok(()),
        Some(target) => match first_covering(s, target as int, a.len as int) {
            None => Err(RelocationError::NoRegion),
            Some(e) => if e.memory_type != MemoryKind::Available {
                Err(RelocationError::WouldOverwrite(e))
            } else if count_covering(s, target as int, a.len as int) > 1 {
                Err(RelocationError::Ambiguous)
            } else {
                Ok(())
            },
        },
    }
}

/// Whether the pending move of `a`, if any, may be made: exactly one entry of
/// `s` holds the target range, and it is available memory.
pub open spec fn safe_to_move(a: AllocationRecord, s: Seq<MemoryEntry>) -> bool {
    match a.should_be_at {
        None => true,
        Some(target) => {
            &&& count_covering(s, target as int, a.len as int) == 1
            &&& first_covering(s, target as int, a.len as int) matches Some(e)
            &&& e.memory_type == MemoryKind::Available
        },
    }
}

proof fn lemma_first_and_count(s: Seq<MemoryEntry>, begin: int, length: int)
    ensures
        first_covering(s, begin, length) is Some <==> count_covering(s, begin, length) >= 1,
    decreases s.len(),
{
    if s.len() > 0 {
        lemma_first_and_count(s.drop_first(), begin, length);
    }
}

/// The check passes exactly where the move may be made.
pub proof fn lemma_verdict_is_safety(a: AllocationRecord, s: Seq<MemoryEntry>)
    ensures
        relocation_verdict(a, s) is Ok <==> safe_to_move(a, s),
{
    if let Some(target) = a.should_be_at {
        lemma_first_and_count(s, target as int, a.len as int);
    }
}

/// A failed pinned allocation leaves the memory elsewhere with its target
/// recorded, and a successful move puts it at the target and clears the record.
pub proof fn lemma_fallback_then_relocate(address: u64, size: usize, fallback: u64)
    requires
        fallback != address,
    ensures
        new_at_outcome(address, size, None, Some(fallback)) is Ok,
        ({
            let a = new_at_outcome(address, size, None, Some(fallback))->Ok_0;
            &&& a.should_be_at == Some(address)
            &&& a.ptr != address
            &&& relocated(a).should_be_at is None
            &&& relocated(a).ptr == address
        }),
{
}

impl Allocation {
    /// The page count matches the byte length.
    pub open spec fn wf(&self) -> bool {
        self@.pages == ceil_div(self@.len as nat, PAGE_SIZE as nat)
    }

    /// Where the pages are now.
    pub fn ptr(&self) -> (r: u64)
        ensures
            r == self@.ptr,
    {
        self.ptr
    }

    /// How many bytes were asked for.
    pub fn len(&self) -> (r: usize)
        ensures
            r == self@.len,
    {
        self.len
    }

    /// How many pages were allocated.
    pub fn pages(&self) -> (r: usize)
        ensures
            r == self@.pages,
    {
        self.pages
    }

    /// Where the memory should be, while it is somewhere else.
    pub fn should_be_at(&self) -> (r: Option<u64>)
        ensures
            r == self@.should_be_at,
    {
        self.should_be_at
    }

    /// Calculate how many pages to allocate for the given amount of bytes.
    pub fn calculate_page_count(size: usize) -> (r: usize)
        ensures
            r == ceil_div(size as nat, PAGE_SIZE as nat),
    {
        let full = size / PAGE_SIZE;
        let r: usize = if size % PAGE_SIZE == 0 { full } else { full + 1 };
        proof {
            let l = size as int;
            let q = l / 4096;
            let m = l % 4096;
            assert((l + 4095) / 4096 == (if m == 0 { q } else { q + 1 })) by (nonlinear_arith)
                requires
                    l >= 0,
                    q == l / 4096,
                    m == l % 4096,
            ;
        }
        r
    }

    /// The highest address that memory below the ceiling may reach.
    pub fn ceiling(modules_below_200mb: bool) -> (r: u64)
        ensures
            r == (if modules_below_200mb { CEILING_200_MIB } else { CEILING_4_GIB }),
    {
        if modules_below_200mb {
            CEILING_200_MIB
        } else {
            CEILING_4_GIB
        }
    }

    /// Record memory allocated page-aligned below the ceiling at `ptr`.
    pub fn new_under_4gb(size: usize, allocated: Option<u64>) -> (r: Result<Allocation, AllocationError>)
        ensures
            outcome_is(r, match allocated {
                Some(p) => Ok(
                    AllocationRecord {
                        ptr: p,
                        len: size,
                        pages: ceil_div(size as nat, PAGE_SIZE as nat) as usize,
                        should_be_at: None,
                    },
                ),
                None => Err::<AllocationRecord, AllocationError>(AllocationError::LoadError),
            }),
    {
        let pages = Self::calculate_page_count(size);
        match allocated {
            Some(p) => Ok(Allocation { ptr: p, len: size, pages, should_be_at: None }),
            None => Err(AllocationError::LoadError),
        }
    }

    /// Record memory requested at `address`.
    ///
    /// `pinned` is what the firmware gave for the allocation at `address`.
    /// Where that failed, `fallback` is what it gave below the ceiling; the
    /// memory then has to be moved to `address` later.
    pub fn new_at(address: u64, size: usize, pinned: Option<u64>, fallback: Option<u64>) -> (r: Result<Allocation, AllocationError>)
        ensures
            outcome_is(r, new_at_outcome(address, size, pinned, fallback)),
    {
        match pinned {
            Some(p) => {
                let pages = Self::calculate_page_count(size);
                Ok(Allocation { ptr: p, len: size, pages, should_be_at: None })
            },
            None => match Self::new_under_4gb(size, fallback) {
                Ok(a) => Ok(Allocation { should_be_at: Some(address), ..a }),
                Err(e) => Err(e),
            },
        }
    }

    /// Checks whether a part of memory is allocated.
    pub fn contains(&self, begin: u64, length: usize) -> (r: bool)
        ensures
            r == (self@.ptr <= begin && self@.ptr + self@.pages * PAGE_SIZE >= begin + length),
    {
        let end: u128 = self.ptr as u128 + self.pages as u128 * 4096;
        self.ptr <= begin && end >= begin as u128 + length as u128
    }

    /// Check the pending move, if any, against `memory_map`: exactly one
    /// entry must hold the target range, and it must be available memory.
    pub fn relocation_check(&self, memory_map: &[MemoryEntry]) -> (r: Result<(), RelocationError>)
        ensures
            r == relocation_verdict(self@, memory_map@),
            r is Ok <==> safe_to_move(self@, memory_map@),
    {
        proof {
            lemma_verdict_is_safety(self@, memory_map@);
        }
        match self.should_be_at {
            None => Ok(()),
            Some(target) => {
                let ghost s = memory_map@;
                let ghost n = self.len as int;
                let mut first: Option<usize> = None;
                let mut count: usize = 0;
                let mut i: usize = 0;
                assert(s.subrange(0, s.len() as int) =~= s);
                while i < memory_map.len()
                    invariant
                        s == memory_map@,
                        n == self.len,
                        i <= s.len(),
                        count <= i,
                        count_covering(s, target as int, n) == count + count_covering(
                            s.subrange(i as int, s.len() as int),
                            target as int,
                            n,
                        ),
                        match first {
                            None => count == 0 && first_covering(s, target as int, n)
                                == first_covering(s.subrange(i as int, s.len() as int), target as int, n),
                            Some(f) => f < i && count >= 1 && first_covering(s, target as int, n) == Some(s[f as int]),
                        },
                    decreases s.len() - i,
                {
                    let e = memory_map[i];
                    proof {
                        let rest = s.subrange(i as int, s.len() as int);
                        assert(rest[0] == e);
                        assert(rest.drop_first() =~= s.subrange(i + 1, s.len() as int));
                    }
                    let hit = e.base_address as u128 + e.length as u128 >= target as u128 + self.len as u128
                        && e.base_address <= target;
                    if hit {
                        if first.is_none() {
                            first = Some(i);
                        }
                        count = count + 1;
                    }
                    i = i + 1;
                }
                proof {
                    assert(s.subrange(s.len() as int, s.len() as int).len() == 0);
                }
                match first {
                    None => Err(RelocationError::NoRegion),
                    Some(f) => {
                        let e = memory_map[f];
                        if e.memory_type != MemoryKind::Available {
                            Err(RelocationError::WouldOverwrite(e))
                        } else if count > 1 {
                            Err(RelocationError::Ambiguous)
                        } else {
                            Ok(())
                        }
                    },
                }
            },
        }
    }

    /// Move to where the memory should be: the allocation is updated to the
    /// target, and the copy that the caller has to perform is returned.
    /// Nothing is to be done where no move is pending.
    pub fn move_to_where_it_should_be(&mut self, memory_map: &[MemoryEntry]) -> (r: Option<MemoryMove>)
        requires
            safe_to_move(old(self)@, memory_map@),
        ensures
            match old(self)@.should_be_at {
                None => r is None && *final(self) == *old(self),
                Some(target) => r == Some(MemoryMove { source: old(self)@.ptr, destination: target, length: old(self)@.len })
                    && final(self)@ == relocated(old(self)@),
            },
            final(self).wf() == old(self).wf(),
    {
        match self.should_be_at {
            None => None,
            Some(target) => {
                let m = MemoryMove { source: self.ptr, destination: target, length: self.len };
                self.ptr = target;
                self.should_be_at = None;
                Some(m)
            },
        }
    }
}

/// Whether memory at `ptr` can be handed to the header parser.
pub open spec fn parser_accepts(ptr: u64) -> bool {
    ptr != 0 && ptr < PARSER_ADDRESS_LIMIT
}

/// The size recorded for `addr`, if it was allocated and not freed since.
pub open spec fn recorded_len(table: Map<u64, usize>, addr: u64) -> Option<usize> {
    if table.contains_key(addr) {
        Some(table[addr])
    } else {
        None
    }
}

/// The table and the result after memory for `length` bytes came back at `ptr`.
pub open spec fn after_allocate(table: Map<u64, usize>, ptr: u64, length: usize) -> (Map<u64, usize>, Option<u64>) {
    if parser_accepts(ptr) {
        (table.insert(ptr, length), Some(ptr))
    } else {
        (table, None)
    }
}

/// Whether `addr` may be freed: the null address, or one that is allocated.
pub open spec fn may_free(table: Map<u64, usize>, addr: u64) -> bool {
    addr == 0 || table.contains_key(addr)
}

/// The table and the result after `addr` is freed; `Some(n)` means that `n`
/// bytes at `addr` are to be released.
pub open spec fn after_deallocate(table: Map<u64, usize>, addr: u64) -> (Map<u64, usize>, Option<usize>) {
    if addr == 0 {
        (table, None)
    } else {
        (table.remove(addr), Some(table[addr]))
    }
}

/// Memory handed to the header parser is found again with the length that was
/// asked for, can be freed once, and may not be freed a second time.
pub proof fn lemma_allocate_translate_free(table: Map<u64, usize>, ptr: u64, length: usize)
    requires
        parser_accepts(ptr),
    ensures
        ({
            let (t1, given) = after_allocate(table, ptr, length);
            let (t2, first) = after_deallocate(t1, ptr);
            &&& given == Some(ptr)
            &&& recorded_len(t1, ptr) == Some(length)
            &&& may_free(t1, ptr)
            &&& first == Some(length)
            &&& recorded_len(t2, ptr) is None
            &&& !may_free(t2, ptr)
        }),
{
}

/// Tracks the memory handed to the header parser, by address.
pub struct MultibootAllocator {
    allocations: BTreeMap<u64, usize>,
}

impl View for MultibootAllocator {
    type V = Map<u64, usize>;

    closed spec fn view(&self) -> Map<u64, usize> {
        self.allocations@
    }
}

impl MultibootAllocator {
    /// Initialize the allocator.
    pub fn new() -> (r: MultibootAllocator)
        ensures
            r@ == Map::<u64, usize>::empty(),
    {
        MultibootAllocator { allocations: BTreeMap::new() }
    }

    /// The length of the memory allocated at `addr`: the length asked for
    /// then, whatever length is probed now.
    pub fn paddr_to_len(&self, addr: u64) -> (r: Option<usize>)
        ensures
            r == recorded_len(self@, addr),
    {
        broadcast use vstd::std_specs::btree::group_btree_axioms, vstd::laws_cmp::group_laws_cmp;

        match self.allocations.get(&addr) {
            Some(n) => Some(*n),
            None => None,
        }
    }

    /// Record that `length` bytes were allocated at `ptr`, where the parser
    /// can use that address; `None` where it cannot (null, or not below 4 GiB).
    pub fn allocate(&mut self, ptr: u64, length: usize) -> (r: Option<u64>)
        ensures
            (final(self)@, r) == after_allocate(old(self)@, ptr, length),
    {
        broadcast use vstd::std_specs::btree::group_btree_axioms, vstd::laws_cmp::group_laws_cmp;

        if ptr >= PARSER_ADDRESS_LIMIT {
            return None;
        }
        if ptr == 0 {
            None
        } else {
            self.allocations.insert(ptr, length);
            Some(ptr)
        }
    }

    /// Forget the memory at `addr` and return how many bytes to release.
    /// Nothing is to be done for the null address. Freeing an address that is
    /// not allocated breaks the parser's side of the contract: callers test
    /// `paddr_to_len` first.
    pub fn deallocate(&mut self, addr: u64) -> (r: Option<usize>)
        requires
            may_free(old(self)@, addr),
        ensures
            (final(self)@, r) == after_deallocate(old(self)@, addr),
    {
        broadcast use vstd::std_specs::btree::group_btree_axioms, vstd::laws_cmp::group_laws_cmp;

        if addr == 0 {
            return None;
        }
        self.allocations.remove(&addr)
    }
}

} // verus!
