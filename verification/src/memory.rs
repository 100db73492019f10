//! The stack region of a snapshot and reads of saved words from it.

use vstd::prelude::*;

verus! {

/// What a stack region holds: `bytes[i]` is the byte at address `base + i`.
pub struct MemoryView {
    pub base: int,
    pub bytes: Seq<u8>,
}

/// The unsigned number that eight bytes spell in little-endian order.
pub open spec fn le_u64(b: Seq<u8>) -> u64
    recommends
        b.len() == 8,
{
    (b[0] as int + 0x100 * (b[1] as int) + 0x1_0000 * (b[2] as int) + 0x100_0000 * (b[3] as int)
        + 0x1_0000_0000 * (b[4] as int) + 0x100_0000_0000 * (b[5] as int) + 0x1_0000_0000_0000 * (
    b[6] as int) + 0x100_0000_0000_0000 * (b[7] as int)) as u64
}

/// The word at `addr` of the region that starts at `base` and holds `bytes`:
/// defined where all eight bytes lie inside the region.
pub open spec fn region_word(base: int, bytes: Seq<u8>, addr: int) -> Option<u64> {
    if base <= addr && addr + 8 <= base + bytes.len() {
        Some(le_u64(bytes.subrange(addr - base, addr - base + 8)))
    } else {
        None
    }
}

/// The word that a read at `addr` yields; nothing can be read without memory.
pub open spec fn read_word(mem: Option<MemoryView>, addr: u64) -> Option<u64> {
    match mem {
        Some(m) => region_word(m.base, m.bytes, addr as int),
        None => None,
    }
}

/// Reads a little-endian `u64` through `minidump::MinidumpMemory::get_memory_at_address`,
/// from a region built over `bytes` with base address `base`.
///
/// Trusted: the call returns the eight bytes at `addr` as a little-endian
/// number when they all lie inside the region, and `None` otherwise. The
/// preconditions keep the address arithmetic of the call inside `u64`.
#[verifier::external_body]
fn read_region_u64(base: u64, bytes: &[u8], addr: u64) -> (r: Option<u64>)
    requires
        base + bytes@.len() <= u64::MAX,
        addr + 8 <= u64::MAX,
    ensures
        r == region_word(base as int, bytes@, addr as int),
{
    let region = minidump::MinidumpMemory {
        desc: Default::default(),
        base_address: base,
        size: bytes.len() as u64,
        bytes,
    };
    region.get_memory_at_address::<u64>(addr)
}

/// One contiguous region of stack memory, copied out of a snapshot.
pub struct StackMemory {
    base: u64,
    bytes: Vec<u8>,
}

impl View for StackMemory {
    type V = MemoryView;

    open spec fn view(&self) -> MemoryView {
        MemoryView { base: self.spec_base() as int, bytes: self.spec_bytes() }
    }
}

impl StackMemory {
    #[verifier::type_invariant]
    spec fn fits_address_space(self) -> bool {
        self.base + self.bytes@.len() <= u64::MAX
    }

    /// Address of the first byte.
    pub closed spec fn spec_base(&self) -> u64 {
        self.base
    }

    /// The bytes of the region.
    pub closed spec fn spec_bytes(&self) -> Seq<u8> {
        self.bytes@
    }

    /// The region that starts at `base` and holds `bytes`; `None` when it would
    /// reach past the last address.
    pub fn new(base: u64, bytes: Vec<u8>) -> (r: Option<StackMemory>)
        ensures
            r.is_some() == (base + bytes@.len() <= u64::MAX),
            r.is_some() ==> r.unwrap()@ == (MemoryView { base: base as int, bytes: bytes@ }),
    {
        if bytes.len() as u64 <= u64::MAX - base {
            Some(StackMemory { base, bytes })
        } else {
            None
        }
    }

    /// Address of the first byte.
    pub fn base(&self) -> (r: u64)
        ensures
            r == self@.base,
    {
        self.base
    }

    /// Number of bytes in the region.
    pub fn size(&self) -> (r: u64)
        ensures
            r == self@.bytes.len(),
    {
        proof {
            use_type_invariant(self);
        }
        self.bytes.len() as u64
    }

    /// Reads the eight-byte word at `addr`; `None` unless the region holds
    /// all of it.
    pub fn read_u64(&self, addr: u64) -> (r: Option<u64>)
        ensures
            r == region_word(self@.base, self@.bytes, addr as int),
            r.is_some() ==> addr + 8 <= u64::MAX,
    {
        proof {
            use_type_invariant(self);
        }
        if addr > u64::MAX - 8 {
            None
        } else {
            read_region_u64(self.base, self.bytes.as_slice(), addr)
        }
    }
}

/// Reads the word at `addr` from `memory`, if there is memory to read.
pub fn read_memory(memory: Option<&StackMemory>, addr: u64) -> (r: Option<u64>)
    ensures
        r == read_word(memory_view(memory), addr),
        r.is_some() ==> addr + 8 <= u64::MAX,
{
    match memory {
        Some(m) => m.read_u64(addr),
        None => None,
    }
}

/// The contents of an optional stack region.
pub open spec fn memory_view(memory: Option<&StackMemory>) -> Option<MemoryView> {
    match memory {
        Some(m) => Some(m@),
        None => None,
    }
}

} // verus!
