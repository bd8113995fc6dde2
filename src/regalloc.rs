//! Guest-to-host register allocation for one block.
use vstd::prelude::*;
use crate::host::{HostOp, DIRECT_REGS, SCRATCH_REGS};

verus! {

/// Why a block could not be translated.
#[derive(Clone, Copy, Debug, PartialEq, Eq, Structural)]
pub enum TranslateError {
    /// Every scratch register was already checked out.
    AllocatorExhausted,
    /// A release did not match the most recent outstanding acquire.
    PairingViolation,
    /// The opcode at `address` is not one the translator supports.
    UnsupportedOpcode { opcode: u16, address: u16 },
    /// The guest memory at `address` holds no whole instruction.
    NoGuestCode { address: u16 },
    /// No executable memory could be had for the block.
    ExecutableMemoryUnavailable,
}

/// The host register that scratch slot `k` stands for.
pub open spec fn scratch_reg(k: int) -> u8 {
    (DIRECT_REGS + k) as u8
}

/// Where guest register `g` is operated on when `k` scratch registers are
/// already checked out.
pub open spec fn location(g: u8, k: int) -> u8 {
    if g < DIRECT_REGS {
        g
    } else {
        scratch_reg(k)
    }
}

/// The code that `acquire` emits for `g` in scratch slot `k`: save the
/// scratch register's native value on the stack, then load the guest value.
pub open spec fn acquire_ops(g: u8, k: int) -> Seq<HostOp> {
    if g < DIRECT_REGS {
        Seq::empty()
    } else {
        seq![
            HostOp::ReserveStackByte,
            HostOp::StoreToStack { src: scratch_reg(k) },
            HostOp::LoadFromState { dst: scratch_reg(k), offset: (g - DIRECT_REGS) as u8 },
        ]
    }
}

/// The code that `release` emits for `g` in scratch slot `k`: write the value
/// back, then restore the scratch register's native value.
pub open spec fn release_ops(g: u8, k: int) -> Seq<HostOp> {
    if g < DIRECT_REGS {
        Seq::empty()
    } else {
        seq![
            HostOp::StoreToState { offset: (g - DIRECT_REGS) as u8, src: scratch_reg(k) },
            HostOp::LoadFromStack { dst: scratch_reg(k) },
            HostOp::FreeStackByte,
        ]
    }
}

/// Hands out host registers for guest registers while a block is translated.
/// Scratch registers are handed out and taken back in stack order.
pub struct RegisterAllocator {
    in_use: usize,
}

impl RegisterAllocator {
    /// The number of scratch registers checked out.
    pub closed spec fn in_use_spec(&self) -> nat {
        self.in_use as nat
    }

    pub open spec fn wf(&self) -> bool {
        self.in_use_spec() <= SCRATCH_REGS
    }

    /// An allocator with the whole scratch pool free.
    pub fn new() -> (r: Self)
        ensures
            r.wf(),
            r.in_use_spec() == 0,
    {
        RegisterAllocator { in_use: 0 }
    }

    /// The number of scratch registers checked out.
    pub fn in_use(&self) -> (r: usize)
        ensures
            r == self.in_use_spec(),
    {
        self.in_use
    }

    /// Frees the whole scratch pool, as at the start of a block.
    pub fn reset(&mut self)
        ensures
            final(self).wf(),
            final(self).in_use_spec() == 0,
    {
        self.in_use = 0;
    }

    /// Makes guest register `g` available in a host register, emitting the
    /// code that loads it when it has no register of its own.
    pub fn acquire(&mut self, code: &mut Vec<HostOp>, g: u8) -> (r: Result<u8, TranslateError>)
        requires
            g < 16,
            old(self).wf(),
        ensures
            final(self).wf(),
            g < DIRECT_REGS ==> r == Ok::<u8, TranslateError>(g) && final(code)@ == old(code)@
                && final(self).in_use_spec() == old(self).in_use_spec(),
            g >= DIRECT_REGS && old(self).in_use_spec() == SCRATCH_REGS ==> r == Err::<
                u8,
                TranslateError,
            >(TranslateError::AllocatorExhausted) && final(code)@ == old(code)@
                && final(self).in_use_spec() == old(self).in_use_spec(),
            g >= DIRECT_REGS && old(self).in_use_spec() < SCRATCH_REGS ==> r == Ok::<
                u8,
                TranslateError,
            >(scratch_reg(old(self).in_use_spec() as int)) && final(code)@ == old(code)@
                + acquire_ops(g, old(self).in_use_spec() as int) && final(self).in_use_spec()
                == old(self).in_use_spec() + 1,
    {
        if g < DIRECT_REGS {
            return Ok(g);
        }
        if self.in_use >= SCRATCH_REGS as usize {
            return Err(TranslateError::AllocatorExhausted);
        }
        let host = DIRECT_REGS + self.in_use as u8;
        self.in_use = self.in_use + 1;
        code.push(HostOp::ReserveStackByte);
        code.push(HostOp::StoreToStack { src: host });
        code.push(HostOp::LoadFromState { dst: host, offset: g - DIRECT_REGS });
        proof {
            assert(code@ =~= old(code)@ + acquire_ops(g, old(self).in_use_spec() as int));
        }
        Ok(host)
    }

    /// Gives back the host register `host` that `acquire` returned for guest
    /// register `g`, emitting the code that writes the value back when `g`
    /// has no register of its own. Only the most recent outstanding scratch
    /// register can be given back.
    pub fn release(&mut self, code: &mut Vec<HostOp>, g: u8, host: u8) -> (r: Result<
        (),
        TranslateError,
    >)
        requires
            g < 16,
            old(self).wf(),
        ensures
            final(self).wf(),
            g < DIRECT_REGS && host == g ==> r is Ok && final(code)@ == old(code)@
                && final(self).in_use_spec() == old(self).in_use_spec(),
            g >= DIRECT_REGS && old(self).in_use_spec() > 0 && host == scratch_reg(
                old(self).in_use_spec() - 1,
            ) ==> r is Ok && final(code)@ == old(code)@ + release_ops(
                g,
                old(self).in_use_spec() - 1,
            ) && final(self).in_use_spec() == old(self).in_use_spec() - 1,
            !(g < DIRECT_REGS && host == g) && !(g >= DIRECT_REGS && old(self).in_use_spec() > 0
                && host == scratch_reg(old(self).in_use_spec() - 1)) ==> r == Err::<
                (),
                TranslateError,
            >(TranslateError::PairingViolation) && final(code)@ == old(code)@
                && final(self).in_use_spec() == old(self).in_use_spec(),
    {
        if g < DIRECT_REGS {
            if host == g {
                return Ok(());
            }
            return Err(TranslateError::PairingViolation);
        }
        if self.in_use == 0 || host != DIRECT_REGS + (self.in_use - 1) as u8 {
            return Err(TranslateError::PairingViolation);
        }
        self.in_use = self.in_use - 1;
        code.push(HostOp::StoreToState { offset: g - DIRECT_REGS, src: host });
        code.push(HostOp::LoadFromStack { dst: host });
        code.push(HostOp::FreeStackByte);
        proof {
            assert(code@ =~= old(code)@ + release_ops(g, old(self).in_use_spec() - 1));
        }
        Ok(())
    }
}

} // verus!
