use vstd::prelude::*;

verus! {

/// Entry point of the memory subsystem, called once during early boot. The
/// physical frame allocator and the memory map are brought up by platform
/// code outside this library, so there is nothing to do here.
pub fn init() {
}

} // verus!
