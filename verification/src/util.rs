use vstd::prelude::*;

verus! {

/// Number of bytes in a cache line.
pub const CACHE_LINE_BYTES: u32 = 64;

/// A byte address in main memory.
#[derive(Debug, Copy, Clone, Default, Hash, PartialEq, Eq, Structural)]
pub struct Addr(pub u32);

impl Addr {
    /// The address of the first byte of the cache line that holds `self`.
    pub fn to_cache_line(self) -> (line: Addr)
        ensures
            line.0 == self.0 - self.0 % 64,
    {
        let a = self.0;
        assert((a & !63u32) == a - a % 64) by (bit_vector);
        Addr(a & !(64 - 1))
    }
}

} // verus!
