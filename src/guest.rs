//! The guest module's entry point: a request comes in through a region of
//! linear memory and its outcome goes out through a fresh one.
use vstd::prelude::*;
use crate::memory::{
    LinearMemory, MAX_MEMORY, allocate, allocation, first_fit, in_bounds, pack_region, read_region,
    take_from, write_region,
};
use crate::validation::{CreateHostParams, ValidationResult, validation_outcome};
use crate::wire::{encode_outcome, wire_form};

verus! {

/// Validates the request held in `bytes` and encodes the outcome in its wire form.
pub fn validate_to_wire(bytes: &[u8]) -> (r: Vec<u8>)
    ensures
        exists|o: ValidationResult<CreateHostParams>| validation_outcome(bytes@, o) && r@ == wire_form(o),
{
    let outcome = CreateHostParams::parse_and_validate_bytes(bytes);
    encode_outcome(&outcome)
}

/// The answer was written into the region that `allocate` hands out for its
/// size, and `r` is that region packed; or no region could be had, and the
/// memory is unchanged.
pub open spec fn answer_placed(before: LinearMemory, after: LinearMemory, answer: Seq<u8>, r: Option<u64>) -> bool {
    let size = answer.len() as u32;
    if answer.len() <= MAX_MEMORY && allocation(before.free@, before@.len() as int, size) is Some {
        let address = allocation(before.free@, before@.len() as int, size)->Some_0;
        &&& r == Some((address * 0x1_0000_0000 + answer.len()) as u64)
        &&& after@.len() == if address + answer.len() > before@.len() {
            address + answer.len()
        } else {
            before@.len() as int
        }
        &&& after@.subrange(address as int, address + answer.len()) == answer
        &&& forall|j: int|
            0 <= j < before@.len() && !(address <= j < address + answer.len()) ==> after@[j]
                == before@[j]
        &&& after.free@ == match first_fit(before.free@, size) {
            Some(i) => take_from(before.free@, i, size),
            None => before.free@,
        }
    } else {
        &&& r is None
        &&& after@ == before@
        &&& after.free@ == before.free@
    }
}

/// Validates the request in the borrowed region `(address, length)` and hands
/// the caller a new region holding the outcome's wire form, packed as
/// `address << 32 | length`. The input is copied out before anything else, and
/// the new region is the caller's to give back with `deallocate`. `None` where
/// the memory has no room for the answer.
pub fn validate_create_host_params(memory: &mut LinearMemory, address: u32, length: u32) -> (r:
    Option<u64>)
    requires
        old(memory).wf(),
        in_bounds(old(memory)@.len() as int, address, length),
    ensures
        final(memory).wf(),
        exists|o: ValidationResult<CreateHostParams>|
            #[trigger] validation_outcome(old(memory)@.subrange(address as int, address + length), o)
                && answer_placed(*old(memory), *final(memory), wire_form(o), r),
{
    let input = read_region(memory, address, length);
    let outcome = CreateHostParams::parse_and_validate_bytes(input.as_slice());
    let answer = encode_outcome(&outcome);
    if answer.len() as u64 > MAX_MEMORY {
        return None;
    }
    let size = answer.len() as u32;
    let region = match allocate(memory, size) {
        Some(region) => region,
        None => return None,
    };
    let ghost mid = memory@;
    write_region(memory, region, answer.as_slice());
    proof {
        assert(memory@.subrange(region as int, region + size) =~= answer@);
        assert forall|j: int|
            0 <= j < old(memory)@.len() && !(region <= j < region + size) implies memory@[j]
            == old(memory)@[j] by {
            if j < region {
                assert(mid.subrange(0, region as int)[j] == mid[j]);
            }
        }
    }
    Some(pack_region(region, size))
}

} // verus!
