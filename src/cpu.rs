//! Guest CPU state.
use vstd::prelude::*;

verus! {

/// The number of guest general-purpose registers.
pub const NUM_GPRS: usize = 16;

/// The size of the guest address space in bytes.
pub const MEMORY_MAP_SIZE: usize = 4096;

/// The guest CPU: registers, index register, program counter and memory.
pub struct CPU {
    pub v: [u8; 16],
    pub i: u16,
    pub pc: u16,
    pub mem: Vec<u8>,
}

impl CPU {
    /// The memory covers the whole address space.
    pub open spec fn wf(&self) -> bool {
        self.mem@.len() == MEMORY_MAP_SIZE
    }

    /// A CPU with every register and every memory byte zero.
    pub fn new() -> (r: Self)
        ensures
            r.wf(),
            r.v@ == Seq::new(16, |k: int| 0u8),
            r.i == 0,
            r.pc == 0,
            r.mem@ == Seq::new(MEMORY_MAP_SIZE as nat, |k: int| 0u8),
    {
        let mem = vec![0u8; MEMORY_MAP_SIZE];
        let r = CPU { v: [0u8; 16], i: 0, pc: 0, mem };
        assert(r.v@ =~= Seq::new(16, |k: int| 0u8));
        assert(r.mem@ =~= Seq::new(MEMORY_MAP_SIZE as nat, |k: int| 0u8));
        r
    }

    /// Reads the memory byte at `addr`.
    pub fn read_byte(&self, addr: usize) -> (r: u8)
        requires
            self.wf(),
            addr < MEMORY_MAP_SIZE,
        ensures
            r == self.mem@[addr as int],
    {
        self.mem[addr]
    }

    /// Copies `image` into memory from address `at` on; bytes past the end of
    /// the address space are left out.
    pub fn load(&mut self, image: &Vec<u8>, at: usize)
        requires
            old(self).wf(),
        ensures
            final(self).wf(),
            final(self).v == old(self).v,
            final(self).i == old(self).i,
            final(self).pc == old(self).pc,
            forall|k: int|
                0 <= k < MEMORY_MAP_SIZE ==> #[trigger] final(self).mem@[k] == if at <= k
                    < at + image@.len() {
                    image@[k - at]
                } else {
                    old(self).mem@[k]
                },
    {
        let mut j: usize = 0;
        while j < image.len()
            invariant
                self.mem@.len() == MEMORY_MAP_SIZE,
                self.v == old(self).v,
                self.i == old(self).i,
                self.pc == old(self).pc,
                j <= image.len(),
                forall|k: int|
                    0 <= k < MEMORY_MAP_SIZE ==> #[trigger] self.mem@[k] == if at <= k < at + j {
                        image@[k - at]
                    } else {
                        old(self).mem@[k]
                    },
            decreases image.len() - j,
        {
            if at < MEMORY_MAP_SIZE && j < MEMORY_MAP_SIZE - at {
                self.mem.set(at + j, image[j]);
            }
            j = j + 1;
        }
    }

    /// The `len` memory bytes from `start` on, cut at the end of memory.
    pub fn memory_from(&self, start: usize, len: usize) -> (r: Vec<u8>)
        requires
            self.wf(),
        ensures
            r@ == self.mem@.subrange(
                if start < MEMORY_MAP_SIZE { start as int } else { MEMORY_MAP_SIZE as int },
                if start < MEMORY_MAP_SIZE && len < MEMORY_MAP_SIZE - start {
                    start + len
                } else {
                    MEMORY_MAP_SIZE as int
                },
            ),
    {
        let lo = if start < MEMORY_MAP_SIZE { start } else { MEMORY_MAP_SIZE };
        let hi = if start < MEMORY_MAP_SIZE && len < MEMORY_MAP_SIZE - start {
            start + len
        } else {
            MEMORY_MAP_SIZE
        };
        let mut r: Vec<u8> = Vec::new();
        let mut k: usize = lo;
        while k < hi
            invariant
                lo <= k <= hi <= MEMORY_MAP_SIZE,
                self.mem@.len() == MEMORY_MAP_SIZE,
                r@ == self.mem@.subrange(lo as int, k as int),
            decreases hi - k,
        {
            r.push(self.mem[k]);
            proof {
                assert(r@ =~= self.mem@.subrange(lo as int, k + 1));
            }
            k = k + 1;
        }
        r
    }

    /// Fetches the instruction word at `pc` (low byte first) and advances
    /// `pc` past it.
    pub fn fetch_instruction(&mut self) -> (r: u16)
        requires
            old(self).wf(),
            old(self).pc + 1 < MEMORY_MAP_SIZE,
        ensures
            final(self).wf(),
            r == old(self).mem@[old(self).pc as int] + old(self).mem@[old(self).pc
                + 1] * 256,
            final(self).pc == old(self).pc + 2,
            final(self).v == old(self).v,
            final(self).i == old(self).i,
            final(self).mem@ == old(self).mem@,
    {
        let lo = self.mem[self.pc as usize] as u16;
        let hi = self.mem[self.pc as usize + 1] as u16;
        self.pc = self.pc + 2;
        (hi * 256) + lo
    }
}

} // verus!
