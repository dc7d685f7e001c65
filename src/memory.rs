//! A model of the guest's linear memory and of the raw regions that cross the
//! boundary to its host.
//!
//! Addresses are offsets into the memory. Regions are handed out by `allocate`
//! and given back by `deallocate`; the memory keeps no record of which regions
//! are live, only a list of the regions given back, which `allocate` reuses
//! before it grows the memory. A region given to a caller belongs to that
//! caller until it calls `deallocate` with the region's exact size.
use vstd::prelude::*;

verus! {

/// The largest size of the memory, in bytes: every address and every length
/// fits in 32 bits.
pub const MAX_MEMORY: u64 = 0xffff_ffff;

/// A contiguous, byte-addressed memory that grows at its end, with the
/// regions given back to it as `(address, size)`.
pub struct LinearMemory {
    pub bytes: Vec<u8>,
    pub free: Vec<(u32, u32)>,
}

impl View for LinearMemory {
    type V = Seq<u8>;

    open spec fn view(&self) -> Seq<u8> {
        self.bytes@
    }
}

impl LinearMemory {
    pub open spec fn wf(self) -> bool {
        &&& self@.len() <= MAX_MEMORY
        &&& forall|i: int|
            0 <= i < self.free@.len() ==> #[trigger] self.free@[i].0 + self.free@[i].1 <= self@.len()
    }

    /// An empty memory.
    pub fn new() -> (r: LinearMemory)
        ensures
            r@ == Seq::<u8>::empty(),
            r.free@ == Seq::<(u32, u32)>::empty(),
            r.wf(),
    {
        LinearMemory { bytes: Vec::new(), free: Vec::new() }
    }

    /// The number of bytes in use.
    pub fn len(&self) -> (r: usize)
        ensures
            r == self@.len(),
    {
        self.bytes.len()
    }
}

/// Whether `[address, address + size)` lies inside a memory of `len` bytes.
pub open spec fn in_bounds(len: int, address: u32, size: u32) -> bool {
    address + size <= len
}

/// The `i`th region given back is the first one of at least `size` bytes.
pub open spec fn fits_first(free: Seq<(u32, u32)>, size: u32, i: int) -> bool {
    &&& 0 <= i < free.len()
    &&& free[i].1 >= size
    &&& forall|j: int| 0 <= j < i ==> #[trigger] free[j].1 < size
}

/// The first region given back that holds `size` bytes, if any.
pub open spec fn first_fit(free: Seq<(u32, u32)>, size: u32) -> Option<int> {
    if exists|i: int| fits_first(free, size, i) {
        Some(choose|i: int| fits_first(free, size, i))
    } else {
        None
    }
}

/// The regions given back once `size` bytes are taken from the start of the
/// `i`th: it goes where it is used up, else it shrinks from the front.
pub open spec fn take_from(free: Seq<(u32, u32)>, i: int, size: u32) -> Seq<(u32, u32)> {
    if free[i].1 == size {
        free.remove(i)
    } else {
        free.update(i, ((free[i].0 + size) as u32, (free[i].1 - size) as u32))
    }
}

/// The address that `allocate` hands out: the start of the first region given
/// back that is large enough, else the end of the memory where the region
/// fits in the address space.
pub open spec fn allocation(free: Seq<(u32, u32)>, len: int, size: u32) -> Option<u32> {
    match first_fit(free, size) {
        Some(i) => Some(free[i].0),
        None => if len + size <= MAX_MEMORY {
            Some(len as u32)
        } else {
            None
        },
    }
}

/// Reserves a region of `size` bytes and hands its address to the caller. A
/// region given back is reused first; else the memory grows at its end. Fails,
/// leaving the memory as it was, only where no region given back is large
/// enough and growing would pass the end of the 32-bit address space.
pub fn allocate(memory: &mut LinearMemory, size: u32) -> (r: Option<u32>)
    requires
        old(memory).wf(),
    ensures
        final(memory).wf(),
        r == allocation(old(memory).free@, old(memory)@.len() as int, size),
        r matches Some(address) ==> address + size <= final(memory)@.len(),
        match first_fit(old(memory).free@, size) {
            Some(i) => final(memory)@ == old(memory)@ && final(memory).free@ == take_from(
                old(memory).free@,
                i,
                size,
            ),
            None => final(memory).free@ == old(memory).free@ && match r {
                Some(address) => {
                    &&& final(memory)@.len() == old(memory)@.len() + size
                    &&& final(memory)@.subrange(0, address as int) == old(memory)@
                },
                None => final(memory)@ == old(memory)@,
            },
        },
{
    let ghost free = old(memory).free@;
    let mut i: usize = 0;
    while i < memory.free.len()
        invariant
            0 <= i <= free.len(),
            memory.free@ == free,
            free == old(memory).free@,
            memory.bytes@ == old(memory).bytes@,
            old(memory).wf(),
            forall|j: int| 0 <= j < i ==> #[trigger] free[j].1 < size,
        decreases free.len() - i,
    {
        let (start, room) = memory.free[i];
        if room >= size {
            proof {
                assert(fits_first(free, size, i as int));
                let c = choose|c: int| fits_first(free, size, c);
                if c < i {
                    assert(free[c].1 < size);
                } else if c > i {
                    assert(free[i as int].1 < size);
                }
                assert(free[i as int].0 + free[i as int].1 <= memory@.len());
            }
            if room == size {
                memory.free.remove(i);
            } else {
                memory.free.set(i, (start + size, room - size));
            }
            proof {
                assert forall|j: int| 0 <= j < memory.free@.len() implies #[trigger] memory.free@[j].0
                    + memory.free@[j].1 <= memory@.len() by {
                    if room == size {
                        if j >= i {
                            assert(memory.free@[j] == free[j + 1]);
                        } else {
                            assert(memory.free@[j] == free[j]);
                        }
                    } else if j != i {
                        assert(memory.free@[j] == free[j]);
                    }
                }
            }
            return Some(start);
        }
        i += 1;
    }
    proof {
        assert(!exists|c: int| fits_first(free, size, c));
    }
    let len = memory.bytes.len();
    if len as u64 + size as u64 > MAX_MEMORY {
        return None;
    }
    let new_len: usize = (len as u64 + size as u64) as usize;
    memory.bytes.resize(new_len, 0u8);
    proof {
        assert forall|j: int| 0 <= j < memory.free@.len() implies #[trigger] memory.free@[j].0
            + memory.free@[j].1 <= memory@.len() by {
            assert(old(memory).free@[j].0 + old(memory).free@[j].1 <= old(memory)@.len());
        }
    }
    Some(len as u32)
}

/// Gives a region back, so that a later `allocate` can reuse it. No byte of
/// the memory changes. The region must lie in the memory; that it is live and
/// that `size` is its exact size is the caller's promise, which nothing checks.
pub fn deallocate(memory: &mut LinearMemory, address: u32, size: u32)
    requires
        old(memory).wf(),
        in_bounds(old(memory)@.len() as int, address, size),
    ensures
        final(memory).wf(),
        final(memory)@ == old(memory)@,
        final(memory).free@ == old(memory).free@.push((address, size)),
{
    memory.free.push((address, size));
    proof {
        assert forall|j: int| 0 <= j < memory.free@.len() implies #[trigger] memory.free@[j].0
            + memory.free@[j].1 <= memory@.len() by {
            if j < old(memory).free@.len() {
                assert(memory.free@[j] == old(memory).free@[j]);
            }
        }
    }
}

/// Writes `data` into the region that starts at `address`.
pub fn write_region(memory: &mut LinearMemory, address: u32, data: &[u8])
    requires
        old(memory).wf(),
        address + data@.len() <= old(memory)@.len(),
    ensures
        final(memory).wf(),
        final(memory).free@ == old(memory).free@,
        final(memory)@ == old(memory)@.subrange(0, address as int) + data@ + old(memory)@.subrange(
            address + data@.len(),
            old(memory)@.len() as int,
        ),
{
    let mut i: usize = 0;
    let start: usize = address as usize;
    while i < data.len()
        invariant
            0 <= i <= data@.len(),
            start == address,
            address + data@.len() <= old(memory)@.len(),
            old(memory).wf(),
            memory.free@ == old(memory).free@,
            memory@.len() == old(memory)@.len(),
            forall|j: int| 0 <= j < address ==> memory@[j] == old(memory)@[j],
            forall|j: int| 0 <= j < i ==> memory@[address + j] == data@[j],
            forall|j: int| address + i <= j < memory@.len() ==> memory@[j] == old(memory)@[j],
        decreases data@.len() - i,
    {
        memory.bytes.set(start + i, data[i]);
        i += 1;
    }
    assert(memory@ =~= old(memory)@.subrange(0, address as int) + data@ + old(memory)@.subrange(
        address + data@.len(),
        old(memory)@.len() as int,
    ));
}

/// Copies out the `length` bytes that start at `address`; the copy stays
/// valid whatever later happens to the region.
pub fn read_region(memory: &LinearMemory, address: u32, length: u32) -> (r: Vec<u8>)
    requires
        memory.wf(),
        in_bounds(memory@.len() as int, address, length),
    ensures
        r@ == memory@.subrange(address as int, address + length),
{
    let mut out: Vec<u8> = Vec::new();
    let mut i: usize = 0;
    while i < length as usize
        invariant
            0 <= i <= length,
            address + length <= memory@.len(),
            memory.wf(),
            out@ == memory@.subrange(address as int, address + i),
        decreases length - i,
    {
        out.push(memory.bytes[address as usize + i]);
        i += 1;
        assert(out@ =~= memory@.subrange(address as int, address + i));
    }
    out
}

/// Packs a region into one word: the address in the high 32 bits, the length
/// in the low 32 bits.
pub fn pack_region(address: u32, length: u32) -> (r: u64)
    ensures
        r == address * 0x1_0000_0000 + length,
{
    let r = ((address as u64) << 32u64) | (length as u64);
    assert(((address as u64) << 32u64) | (length as u64) == (address as u64) * 0x1_0000_0000u64
        + length as u64) by (bit_vector);
    r
}

/// Splits a packed word back into its address and length.
pub fn unpack_region(word: u64) -> (r: (u32, u32))
    ensures
        word == r.0 * 0x1_0000_0000 + r.1,
{
    assert((word >> 32u64) <= 0xffff_ffffu64) by (bit_vector);
    assert((word & 0xffff_ffffu64) <= 0xffff_ffffu64) by (bit_vector);
    let address = (word >> 32u64) as u32;
    let length = (word & 0xffff_ffffu64) as u32;
    assert(word == (word >> 32u64) * 0x1_0000_0000u64 + (word & 0xffff_ffffu64)) by (bit_vector);
    (address, length)
}

/// A region written after allocation reads back exactly as written, and no
/// byte outside it changes.
pub proof fn lemma_region_round_trip(before: Seq<u8>, address: u32, data: Seq<u8>, after: Seq<u8>)
    requires
        address + data.len() <= before.len(),
        after == before.subrange(0, address as int) + data + before.subrange(
            address + data.len(),
            before.len() as int,
        ),
    ensures
        after.len() == before.len(),
        after.subrange(address as int, address + data.len()) == data,
        forall|j: int|
            0 <= j < before.len() && !(address <= j < address + data.len()) ==> after[j]
                == before[j],
{
    assert(after.subrange(address as int, address + data.len()) =~= data);
}

} // verus!
