//! A compiled block of guest code and the call boundary that runs it.
use vstd::prelude::*;
use crate::cpu::CPU;
use crate::host::{enter, exec_ops, leave, lemma_exec_lengths, run_host, HostMachine, HostOp, DIRECT_REGS};
use crate::regalloc::{RegisterAllocator, TranslateError};
use crate::translate::{
    is_translation, translatable, translate_block, translation_error,
};

verus! {

/// One compiled unit of guest code. Its entry point is unset until a
/// translation has finished.
pub struct BasicBlock {
    code: Option<Vec<HostOp>>,
    guest_len: usize,
}

impl BasicBlock {
    /// The block's host code, once it has been translated.
    pub closed spec fn code_spec(&self) -> Option<Seq<HostOp>> {
        match self.code {
            Some(c) => Some(c@),
            None => None,
        }
    }

    /// The number of guest bytes the block covers.
    pub closed spec fn guest_len_spec(&self) -> usize {
        self.guest_len
    }

    /// An empty block, not yet translated.
    pub fn new() -> (r: Self)
        ensures
            r.code_spec() is None,
            r.guest_len_spec() == 0,
    {
        BasicBlock { code: None, guest_len: 0 }
    }

    /// Whether the block has been translated.
    pub fn is_finalized(&self) -> (r: bool)
        ensures
            r == self.code_spec() is Some,
    {
        self.code.is_some()
    }

    /// The number of guest bytes the block covers.
    pub fn guest_len(&self) -> (r: usize)
        ensures
            r == self.guest_len_spec(),
    {
        self.guest_len
    }

    /// The block's host code, once it has been translated.
    pub fn code(&self) -> (r: Option<&Vec<HostOp>>)
        ensures
            r matches Some(c) ==> self.code_spec() == Some(c@),
            r is None <==> self.code_spec() is None,
    {
        match &self.code {
            Some(c) => Some(c),
            None => None,
        }
    }

    /// Translates the guest code in `bytes`, which begins at guest address
    /// `start`, into this block and returns the number of guest bytes it
    /// covers. On failure the block is left as it was.
    pub fn recompile(&mut self, bytes: &Vec<u8>, start: u16) -> (r: Result<usize, TranslateError>)
        ensures
            (r is Ok) == translatable(bytes@),
            (r matches Ok(n) ==> final(self).code_spec() matches Some(c) && is_translation(
                bytes@,
                c,
                n,
            ) && final(self).guest_len_spec() == n),
            (r matches Ok(n) ==> n > 0),
            (r matches Err(e) ==> translation_error(bytes@, start, e) && *final(self) == *old(
                self,
            )),
    {
        let mut alloc = RegisterAllocator::new();
        match translate_block(&mut alloc, bytes, start) {
            Ok(block) => {
                let n = block.guest_len;
                self.code = Some(block.code);
                self.guest_len = n;
                Ok(n)
            },
            Err(e) => Err(e),
        }
    }

    /// Runs the block on `cpu`'s registers: every guest register enters the
    /// host register or state slot that the calling convention gives it, and
    /// is read back from there when the block returns.
    pub fn execute(&self, cpu: &mut CPU)
        requires
            self.code_spec() is Some,
        ensures
            final(cpu).v@ == run_host(old(cpu).v@, self.code_spec()->Some_0),
            final(cpu).i == old(cpu).i,
            final(cpu).pc == old(cpu).pc,
            final(cpu).mem == old(cpu).mem,
    {
        let code = match &self.code {
            Some(c) => c,
            None => {
                return ;
            },
        };
        let mut regs: Vec<u8> = Vec::new();
        let mut state: Vec<u8> = Vec::new();
        let mut k: usize = 0;
        while k < 16
            invariant
                k <= 16,
                k <= DIRECT_REGS ==> regs@ == cpu.v@.subrange(0, k as int) && state@.len() == 0,
                k > DIRECT_REGS ==> regs@ == cpu.v@.subrange(0, DIRECT_REGS as int) && state@
                    == cpu.v@.subrange(DIRECT_REGS as int, k as int),
            decreases 16 - k,
        {
            if k < DIRECT_REGS as usize {
                regs.push(cpu.v[k]);
                proof {
                    assert(regs@ =~= cpu.v@.subrange(0, k + 1));
                }
            } else {
                state.push(cpu.v[k]);
                proof {
                    assert(state@ =~= cpu.v@.subrange(DIRECT_REGS as int, k + 1));
                }
            }
            k = k + 1;
        }
        regs.push(0);
        regs.push(0);
        regs.push(0);
        let mut machine = HostMachine { regs, carry: false, stack: Vec::new(), state };
        proof {
            assert(machine@.regs =~= enter(cpu.v@).regs);
            assert(machine@.stack =~= enter(cpu.v@).stack);
        }
        machine.run(code);
        let ghost out = leave(exec_ops(enter(old(cpu).v@), code@));
        proof {
            lemma_exec_lengths(enter(old(cpu).v@), code@);
        }
        let mut j: usize = 0;
        while j < 16
            invariant
                j <= 16,
                out == leave(machine@),
                machine@.regs.len() == 14,
                machine@.state.len() == 5,
                forall|t: int| 0 <= t < j ==> cpu.v@[t] == out[t],
                cpu.i == old(cpu).i,
                cpu.pc == old(cpu).pc,
                cpu.mem == old(cpu).mem,
            decreases 16 - j,
        {
            if j < DIRECT_REGS as usize {
                cpu.v[j] = machine.regs[j];
            } else if j - (DIRECT_REGS as usize) < machine.state.len() {
                cpu.v[j] = machine.state[j - DIRECT_REGS as usize];
            }
            j = j + 1;
        }
        proof {
            assert(cpu.v@ =~= out);
        }
    }
}

} // verus!
