//! A block translator for the CHIP-8 virtual machine.
//!
//! Guest opcodes are decoded, translated block by block into a small host
//! instruction set (byte registers, a native stack and a base-addressed state
//! area) and run either natively or through the reference executor in
//! [`host`]. Every translation is proved to reproduce the guest semantics.
pub mod basic_block;
pub mod cpu;
pub mod guest;
pub mod host;
pub mod regalloc;
pub mod theorems;
pub mod translate;

use vstd::hash_map::HashMapWithView;
use vstd::prelude::*;
use basic_block::BasicBlock;
use cpu::{CPU, MEMORY_MAP_SIZE};
use host::run_host;
use regalloc::TranslateError;
use translate::{is_translation, translation_error, MAX_BLOCK_INSTRUCTIONS};

verus! {

/// The guest bytes from which a block at `pc` is translated.
pub open spec fn block_window(mem: Seq<u8>, pc: u16) -> Seq<u8> {
    let start = if (pc as int) < MEMORY_MAP_SIZE { pc as int } else { MEMORY_MAP_SIZE as int };
    let end = if start + 2 * MAX_BLOCK_INSTRUCTIONS < MEMORY_MAP_SIZE {
        start + 2 * MAX_BLOCK_INSTRUCTIONS
    } else {
        MEMORY_MAP_SIZE as int
    };
    mem.subrange(start, end)
}

/// a cached block is kept, a missing one is built out of the memory at
/// `pc` and cached; when that fails, nothing changes.
/// `pc` and cached, and a failed translation changes nothing.
pub open spec fn cache_spec(a: Emulator, b: Emulator, r: Result<(), TranslateError>) -> bool {
    let pc = a.cpu_spec().pc;
    let window = block_window(a.cpu_spec().mem@, pc);
    match r {
        Err(e) => !a.blocks().contains_key(pc) && translation_error(window, pc, e) && b == a,
        Ok(_) => {
            let block = b.blocks()[pc];
            &&& b.blocks().contains_key(pc)
            &&& a.blocks().contains_key(pc) ==> b == a
            &&& !a.blocks().contains_key(pc) ==> b.blocks() == a.blocks().insert(pc, block)
                && is_translation(window, block.code_spec()->Some_0, block.guest_len_spec())
                && block.guest_len_spec() > 0 && b.cpu_spec() == a.cpu_spec()
        },
    }
}

/// One turn of the dispatch loop from `a` to `b` with result `r`.
pub open spec fn step_spec(a: Emulator, b: Emulator, r: Result<(), TranslateError>) -> bool {
    let pc = a.cpu_spec().pc;
    let window = block_window(a.cpu_spec().mem@, pc);
    match r {
        Err(e) => !a.blocks().contains_key(pc) && translation_error(window, pc, e) && b == a,
        Ok(_) => {
            let block = b.blocks()[pc];
            &&& b.blocks().contains_key(pc)
            &&& a.blocks().contains_key(pc) ==> b.blocks() == a.blocks()
            &&& !a.blocks().contains_key(pc) ==> b.blocks() == a.blocks().insert(pc, block)
                && is_translation(window, block.code_spec()->Some_0, block.guest_len_spec())
                && block.guest_len_spec() > 0
            &&& b.cpu_spec().v@ == run_host(a.cpu_spec().v@, block.code_spec()->Some_0)
            &&& b.cpu_spec().pc == (pc + block.guest_len_spec()) % 65536
            &&& b.cpu_spec().i == a.cpu_spec().i
            &&& b.cpu_spec().mem == a.cpu_spec().mem
        },
    }
}

/// Each state of `trace` follows from the one before by a successful turn
/// of the dispatch loop, but the last, which follows with result `r`.
pub open spec fn is_run(trace: Seq<Emulator>, r: Result<(), TranslateError>) -> bool {
    &&& trace.len() >= 1
    &&& forall|i: int| 0 <= i < trace.len() - 2 ==> step_spec(#[trigger] trace[i], trace[i + 1], Ok(()))
    &&& trace.len() >= 2 ==> step_spec(trace[trace.len() - 2], trace.last(), r)
    &&& trace.len() == 1 ==> r is Ok
}

/// An emulation session: the guest CPU and the cache of translated blocks,
/// keyed by the guest address that begins each block.
pub struct Emulator {
    basic_blocks: HashMapWithView<u16, BasicBlock>,
    cpu: CPU,
}

impl Emulator {
    /// The cached blocks by guest address.
    pub closed spec fn blocks(&self) -> Map<u16, BasicBlock> {
        self.basic_blocks@
    }

    /// The guest CPU.
    pub closed spec fn cpu_spec(&self) -> CPU {
        self.cpu
    }

    /// The CPU's memory spans the address space and every cached block has
    /// been translated and covers at most one block's worth of guest code.
    pub open spec fn wf(&self) -> bool {
        &&& self.cpu_spec().wf()
        &&& forall|a: u16| #[trigger]
            self.blocks().contains_key(a) ==> self.blocks()[a].code_spec() is Some
                && self.blocks()[a].guest_len_spec() <= 2 * MAX_BLOCK_INSTRUCTIONS
    }

    /// A session with a zeroed CPU and an empty cache.
    pub fn new() -> (r: Self)
        ensures
            r.wf(),
            r.blocks() == Map::<u16, BasicBlock>::empty(),
            r.cpu_spec().pc == 0,
            r.cpu_spec().i == 0,
            r.cpu_spec().v@ == Seq::new(16, |k: int| 0u8),
            r.cpu_spec().mem@ == Seq::new(MEMORY_MAP_SIZE as nat, |k: int| 0u8),
    {
        broadcast use vstd::std_specs::hash::group_hash_axioms;

        Emulator { basic_blocks: HashMapWithView::new(), cpu: CPU::new() }
    }

    /// The guest CPU.
    pub fn cpu(&self) -> (r: &CPU)
        ensures
            *r == self.cpu_spec(),
    {
        &self.cpu
    }

    /// Copies a guest program image into memory from address `at` on.
    pub fn load(&mut self, image: &Vec<u8>, at: usize)
        requires
            old(self).wf(),
        ensures
            final(self).wf(),
            final(self).blocks() == old(self).blocks(),
            final(self).cpu_spec().v == old(self).cpu_spec().v,
            final(self).cpu_spec().pc == old(self).cpu_spec().pc,
            final(self).cpu_spec().i == old(self).cpu_spec().i,
            forall|k: int|
                0 <= k < MEMORY_MAP_SIZE ==> #[trigger] final(self).cpu_spec().mem@[k] == if at
                    <= k < at + image@.len() {
                    image@[k - at]
                } else {
                    old(self).cpu_spec().mem@[k]
                },
    {
        self.cpu.load(image, at);
    }

    /// Sets guest register `x` to `val`.
    pub fn set_register(&mut self, x: usize, val: u8)
        requires
            old(self).wf(),
            x < 16,
        ensures
            final(self).wf(),
            final(self).blocks() == old(self).blocks(),
            final(self).cpu_spec().v@ == old(self).cpu_spec().v@.update(x as int, val),
            final(self).cpu_spec().i == old(self).cpu_spec().i,
            final(self).cpu_spec().pc == old(self).cpu_spec().pc,
            final(self).cpu_spec().mem == old(self).cpu_spec().mem,
    {
        self.cpu.v[x] = val;
    }

    /// Sets the guest program counter.
    pub fn set_pc(&mut self, pc: u16)
        requires
            old(self).wf(),
        ensures
            final(self).wf(),
            final(self).blocks() == old(self).blocks(),
            final(self).cpu_spec().v == old(self).cpu_spec().v,
            final(self).cpu_spec().pc == pc,
            final(self).cpu_spec().i == old(self).cpu_spec().i,

            final(self).cpu_spec().mem == old(self).cpu_spec().mem,
    {
        self.cpu.pc = pc;
    }

    /// Whether a block beginning at `addr` is cached.
    pub fn is_cached(&self, addr: u16) -> (r: bool)
        ensures
            r == self.blocks().contains_key(addr),
    {
        self.basic_blocks.contains_key(&addr)
    }

    /// The cached block that begins at `addr`, if any.
    pub fn block_at(&self, addr: u16) -> (r: Option<&BasicBlock>)
        ensures
            r matches Some(b) ==> self.blocks().contains_key(addr) && *b == self.blocks()[addr],
            r is None <==> !self.blocks().contains_key(addr),
    {
        self.basic_blocks.get(&addr)
    }

    /// Makes sure a block beginning at `pc` is cached, translating it from
    /// the memory at `pc` on a miss. A failed translation changes nothing.
    pub fn ensure_cached(&mut self) -> (r: Result<(), TranslateError>)
        requires
            old(self).wf(),
        ensures
            final(self).wf(),
            cache_spec(*old(self), *final(self), r),
    {
        let pc = self.cpu.pc;
        if !self.basic_blocks.contains_key(&pc) {
            let len: usize = 2 * MAX_BLOCK_INSTRUCTIONS;
            let bytes = self.cpu.memory_from(pc as usize, len);
            let mut block = BasicBlock::new();
            match block.recompile(&bytes, pc) {
                Ok(_) => {},
                Err(e) => {
                    return Err(e);
                },
            }
            self.basic_blocks.insert(pc, block);
        }
        Ok(())
    }

    /// Ends a turn of the dispatch loop: the guest registers become `regs`,
    /// as the block at `pc` left them, and `pc` moves past the guest code
    /// that block covers.
    pub fn finish_turn(&mut self, regs: [u8; 16])
        requires
            old(self).wf(),
            old(self).blocks().contains_key(old(self).cpu_spec().pc),
        ensures
            final(self).wf(),
            final(self).blocks() == old(self).blocks(),
            final(self).cpu_spec().v == regs,
            final(self).cpu_spec().pc == (old(self).cpu_spec().pc + old(self).blocks()[old(
                self,
            ).cpu_spec().pc].guest_len_spec()) % 65536,
            final(self).cpu_spec().i == old(self).cpu_spec().i,
            final(self).cpu_spec().mem == old(self).cpu_spec().mem,
    {
        let pc = self.cpu.pc;
        let n = match self.basic_blocks.get(&pc) {
            Some(b) => b.guest_len(),
            None => 0,
        };
        self.cpu.v = regs;
        self.cpu.pc = ((pc as usize + n) % 65536) as u16;
    }

    /// One turn of the dispatch loop: look up the block at `pc`, translating
    /// and caching it on a miss, run it, and move `pc` past the guest code
    /// it covers. A failed translation changes nothing.
    pub fn step(&mut self) -> (r: Result<(), TranslateError>)
        requires
            old(self).wf(),
        ensures
            final(self).wf(),
            step_spec(*old(self), *final(self), r),
    {
        match self.ensure_cached() {
            Ok(()) => {},
            Err(e) => {
                return Err(e);
            },
        }
        let pc = self.cpu.pc;
        let block = match self.basic_blocks.get(&pc) {
            Some(b) => b,
            None => {
                return Ok(());
            },
        };
        block.execute(&mut self.cpu);
        let regs = self.cpu.v;
        self.finish_turn(regs);
        Ok(())
    }

    /// Runs the dispatch loop for up to `turns` turns, stopping at the first
    /// block that cannot be translated. Returns the number of turns taken,
    /// the failed one included.
    pub fn run(&mut self, turns: usize) -> (r: (usize, Result<(), TranslateError>))
        requires
            old(self).wf(),
        ensures
            final(self).wf(),
            exists|t: Seq<Emulator>|
                #![trigger is_run(t, r.1)]
                is_run(t, r.1) && t.len() == r.0 + 1 && t[0] == *old(self) && t.last() == *final(self),
            r.1 is Ok ==> r.0 == turns,
            r.1 is Err ==> 0 < r.0 <= turns,
    {
        let mut i: usize = 0;
        let ghost mut trace = seq![*self];
        while i < turns
            invariant
                self.wf(),
                i <= turns,
                is_run(trace, Ok(())),
                trace.len() == i + 1,
                trace[0] == *old(self),
                trace.last() == *self,
            decreases turns - i,
        {
            let ghost prev = *self;
            let res = self.step();
            proof {
                let t0 = trace;
                trace = trace.push(*self);
                assert(trace[trace.len() - 2] == prev);
                assert forall|j: int| 0 <= j < trace.len() - 2 implies step_spec(
                    #[trigger] trace[j],
                    trace[j + 1],
                    Ok(()),
                ) by {
                    if j < t0.len() - 2 {
                        assert(trace[j] == t0[j] && trace[j + 1] == t0[j + 1]);
                    } else {
                        assert(trace[j] == t0[t0.len() - 2] && trace[j + 1] == t0.last());
                    }
                }
                assert(is_run(trace, res));
            }
            i = i + 1;
            match res {
                Err(_) => {
                    return (i, res);
                },
                Ok(()) => {},
            }
        }
        proof {
            assert(is_run(trace, Ok(())));
        }
        (i, Ok(()))
    }
}

} // verus!
