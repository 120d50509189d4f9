//! A region of memory that a runtime reads: the 64-bit words from a byte
//! address on, as the compiled code lays them out.
use vstd::prelude::*;

verus! {

/// The words of memory from byte address `start` on; word `k` is at byte
/// address `start + 8 * k`.
pub struct Memory {
    pub start: u64,
    pub words: Vec<u64>,
}

/// The byte address `addr` is that of one of the `len` words from `start`
/// on.
pub open spec fn in_region(start: u64, len: nat, addr: int) -> bool {
    start <= addr && (addr - start) % 8 == 0 && (addr - start) / 8 < len
}

impl Memory {
    /// The region holds a word at byte address `addr`.
    pub open spec fn holds(&self, addr: int) -> bool {
        in_region(self.start, self.words@.len(), addr)
    }

    /// The region lies below the largest `i64`, so that addresses within it
    /// are non-negative `i64`s too.
    pub open spec fn below_i64_max(&self) -> bool {
        self.start + 8 * self.words@.len() <= i64::MAX
    }

    /// The word at byte address `addr`.
    pub open spec fn at(&self, addr: int) -> u64 {
        self.words@[(addr - self.start) / 8]
    }

    /// Whether the byte address `addr` is that of one of the words.
    pub fn has(&self, addr: u64) -> (r: bool)
        ensures
            r == self.holds(addr as int),
    {
        self.start <= addr && (addr - self.start) % 8 == 0 && (addr - self.start) / 8 < self.words.len() as u64
    }

    /// Reads the word at byte address `addr`.
    pub fn read(&self, addr: u64) -> (w: u64)
        requires
            self.holds(addr as int),
        ensures
            w == self.at(addr as int),
    {
        let k = (addr - self.start) / 8;
        let n = self.words.len();
        assert(k < n);
        let i = k as usize;
        self.words[i]
    }
}

} // verus!
