//! The host side: a byte-register machine with a carry flag, a native stack
//! and a state area reached through a base register.
//!
//! Calling convention: guest registers `0..DIRECT_REGS` live in host registers
//! of the same number for the whole block; host registers
//! `DIRECT_REGS..HOST_REGS` form the scratch pool; guest registers
//! `DIRECT_REGS..16` live in the state area, at offset `g - DIRECT_REGS`.
use vstd::prelude::*;

verus! {

/// Guest registers with a permanent host register.
pub const DIRECT_REGS: u8 = 11;

/// Host registers in the scratch pool.
pub const SCRATCH_REGS: u8 = 3;

/// All host byte registers that generated code uses.
pub const HOST_REGS: u8 = 14;

/// Bytes of the state area (the guest registers without a host register).
pub const STATE_BYTES: u8 = 5;

/// One host instruction. Register operands are host register numbers
/// (`0..HOST_REGS`), offsets are into the state area.
#[derive(Clone, Copy, Debug, PartialEq, Eq, Structural)]
pub enum HostOp {
    /// `sub rsp, 1`
    ReserveStackByte,
    /// `add rsp, 1`
    FreeStackByte,
    /// `mov byte [rsp], src`
    StoreToStack { src: u8 },
    /// `mov dst, byte [rsp]`
    LoadFromStack { dst: u8 },
    /// `mov dst, byte [base + offset]`
    LoadFromState { dst: u8, offset: u8 },
    /// `mov byte [base + offset], src`
    StoreToState { offset: u8, src: u8 },
    /// `mov dst, imm`
    MovImm { dst: u8, imm: u8 },
    /// `add dst, imm`
    AddImm { dst: u8, imm: u8 },
    /// `mov dst, src`
    Mov { dst: u8, src: u8 },
    /// `or dst, src`
    Or { dst: u8, src: u8 },
    /// `and dst, src`
    And { dst: u8, src: u8 },
    /// `xor dst, src`
    Xor { dst: u8, src: u8 },
    /// `add dst, src`
    Add { dst: u8, src: u8 },
    /// `sub dst, src`
    Sub { dst: u8, src: u8 },
    /// `shr dst, 1`
    Shr1 { dst: u8 },
    /// `shl dst, 1`
    Shl1 { dst: u8 },
    /// `setc dst`
    SetCarry { dst: u8 },
    /// `setnc dst`
    SetNoCarry { dst: u8 },
    /// `ret`
    Ret,
}

/// The abstract state of the host machine while a block runs.
pub struct HostModel {
    pub regs: Seq<u8>,
    pub carry: bool,
    /// The native stack, top at the end.
    pub stack: Seq<u8>,
    /// The state area.
    pub state: Seq<u8>,
}

pub open spec fn set_reg(m: HostModel, r: u8, val: u8) -> HostModel {
    if (r as int) < m.regs.len() {
        HostModel { regs: m.regs.update(r as int, val), ..m }
    } else {
        m
    }
}

pub open spec fn set_reg_carry(m: HostModel, r: u8, val: u8, carry: bool) -> HostModel {
    if (r as int) < m.regs.len() {
        HostModel { regs: m.regs.update(r as int, val), carry: carry, ..m }
    } else {
        m
    }
}

pub open spec fn reg(m: HostModel, r: u8) -> u8 {
    if (r as int) < m.regs.len() {
        m.regs[r as int]
    } else {
        0
    }
}

/// The effect of one host instruction. Adjusting the stack pointer leaves
/// the carry clear (it never wraps).
pub open spec fn step(m: HostModel, op: HostOp) -> HostModel {
    match op {
        HostOp::ReserveStackByte => HostModel { stack: m.stack.push(0), carry: false, ..m },
        HostOp::FreeStackByte => if m.stack.len() > 0 {
            HostModel { stack: m.stack.drop_last(), carry: false, ..m }
        } else {
            HostModel { carry: false, ..m }
        },
        HostOp::StoreToStack { src } => if m.stack.len() > 0 {
            HostModel { stack: m.stack.update(m.stack.len() - 1, reg(m, src)), ..m }
        } else {
            m
        },
        HostOp::LoadFromStack { dst } => if m.stack.len() > 0 {
            set_reg(m, dst, m.stack.last())
        } else {
            m
        },
        HostOp::LoadFromState { dst, offset } => if (offset as int) < m.state.len() {
            set_reg(m, dst, m.state[offset as int])
        } else {
            m
        },
        HostOp::StoreToState { offset, src } => if (offset as int) < m.state.len() {
            HostModel { state: m.state.update(offset as int, reg(m, src)), ..m }
        } else {
            m
        },
        HostOp::MovImm { dst, imm } => set_reg(m, dst, imm),
        HostOp::AddImm { dst, imm } => set_reg_carry(
            m,
            dst,
            ((reg(m, dst) + imm) % 256) as u8,
            reg(m, dst) + imm > 255,
        ),
        HostOp::Mov { dst, src } => set_reg(m, dst, reg(m, src)),
        HostOp::Or { dst, src } => set_reg_carry(m, dst, reg(m, dst) | reg(m, src), false),
        HostOp::And { dst, src } => set_reg_carry(m, dst, reg(m, dst) & reg(m, src), false),
        HostOp::Xor { dst, src } => set_reg_carry(m, dst, reg(m, dst) ^ reg(m, src), false),
        HostOp::Add { dst, src } => set_reg_carry(
            m,
            dst,
            ((reg(m, dst) + reg(m, src)) % 256) as u8,
            reg(m, dst) + reg(m, src) > 255,
        ),
        HostOp::Sub { dst, src } => set_reg_carry(
            m,
            dst,
            ((reg(m, dst) - reg(m, src) + 256) % 256) as u8,
            reg(m, dst) < reg(m, src),
        ),
        HostOp::Shr1 { dst } => set_reg_carry(m, dst, reg(m, dst) / 2, reg(m, dst) % 2 == 1),
        HostOp::Shl1 { dst } => set_reg_carry(
            m,
            dst,
            ((reg(m, dst) * 2) % 256) as u8,
            reg(m, dst) >= 128,
        ),
        HostOp::SetCarry { dst } => set_reg(m, dst, if m.carry { 1 } else { 0 }),
        HostOp::SetNoCarry { dst } => set_reg(m, dst, if m.carry { 0 } else { 1 }),
        HostOp::Ret => m,
    }
}

/// The effect of a run of host instructions, in order.
pub open spec fn exec_ops(m: HostModel, ops: Seq<HostOp>) -> HostModel
    decreases ops.len(),
{
    if ops.len() == 0 {
        m
    } else {
        step(exec_ops(m, ops.drop_last()), ops.last())
    }
}

/// Running two runs of instructions one after the other.
pub proof fn lemma_exec_append(m: HostModel, a: Seq<HostOp>, b: Seq<HostOp>)
    ensures
        exec_ops(m, a + b) == exec_ops(exec_ops(m, a), b),
    decreases b.len(),
{
    if b.len() == 0 {
        assert(a + b =~= a);
    } else {
        lemma_exec_append(m, a, b.drop_last());
        assert((a + b).drop_last() =~= a + b.drop_last());
        assert((a + b).last() == b.last());
    }
}

/// Instructions keep the number of registers and the size of the state area.
pub proof fn lemma_exec_lengths(m: HostModel, ops: Seq<HostOp>)
    ensures
        exec_ops(m, ops).regs.len() == m.regs.len(),
        exec_ops(m, ops).state.len() == m.state.len(),
    decreases ops.len(),
{
    if ops.len() > 0 {
        lemma_exec_lengths(m, ops.drop_last());
    }
}

/// The host state on block entry: each direct-mapped guest register in its
/// host register, the scratch registers clear, the rest in the state area.
pub open spec fn enter(v: Seq<u8>) -> HostModel {
    HostModel {
        regs: v.subrange(0, DIRECT_REGS as int) + seq![0u8, 0u8, 0u8],
        carry: false,
        stack: Seq::empty(),
        state: v.subrange(DIRECT_REGS as int, 16),
    }
}

/// The guest registers read back on block exit.
pub open spec fn leave(m: HostModel) -> Seq<u8> {
    m.regs.subrange(0, DIRECT_REGS as int) + m.state
}

/// The guest registers after running `ops` through the call boundary.
pub open spec fn run_host(v: Seq<u8>, ops: Seq<HostOp>) -> Seq<u8> {
    leave(exec_ops(enter(v), ops))
}

/// A host machine that runs generated code by its semantics.
pub struct HostMachine {
    pub regs: Vec<u8>,
    pub carry: bool,
    pub stack: Vec<u8>,
    pub state: Vec<u8>,
}

impl View for HostMachine {
    type V = HostModel;

    open spec fn view(&self) -> HostModel {
        HostModel { regs: self.regs@, carry: self.carry, stack: self.stack@, state: self.state@ }
    }
}

impl HostMachine {
    fn get(&self, r: u8) -> (out: u8)
        ensures
            out == reg(self@, r),
    {
        if (r as usize) < self.regs.len() {
            self.regs[r as usize]
        } else {
            0
        }
    }

    fn put(&mut self, r: u8, val: u8, carry: bool)
        ensures
            final(self)@ == set_reg_carry(old(self)@, r, val, carry),
    {
        if (r as usize) < self.regs.len() {
            self.regs.set(r as usize, val);
            self.carry = carry;
        }
    }

    /// Runs one instruction.
    pub fn step(&mut self, op: HostOp)
        ensures
            final(self)@ == step(old(self)@, op),
    {
        match op {
            HostOp::ReserveStackByte => {
                self.stack.push(0);
                self.carry = false;
            },
            HostOp::FreeStackByte => {
                if self.stack.len() > 0 {
                    self.stack.pop();
                }
                self.carry = false;
            },
            HostOp::StoreToStack { src } => {
                if self.stack.len() > 0 {
                    let v = self.get(src);
                    let top = self.stack.len() - 1;
                    self.stack.set(top, v);
                }
            },
            HostOp::LoadFromStack { dst } => {
                if self.stack.len() > 0 {
                    let v = self.stack[self.stack.len() - 1];
                    let c = self.carry;
                    self.put(dst, v, c);
                }
            },
            HostOp::LoadFromState { dst, offset } => {
                if (offset as usize) < self.state.len() {
                    let v = self.state[offset as usize];
                    let c = self.carry;
                    self.put(dst, v, c);
                }
            },
            HostOp::StoreToState { offset, src } => {
                if (offset as usize) < self.state.len() {
                    let v = self.get(src);
                    self.state.set(offset as usize, v);
                }
            },
            HostOp::MovImm { dst, imm } => {
                let c = self.carry;
                self.put(dst, imm, c);
            },
            HostOp::AddImm { dst, imm } => {
                let a = self.get(dst);
                self.put(dst, a.wrapping_add(imm), a as u16 + imm as u16 > 255);
            },
            HostOp::Mov { dst, src } => {
                let b = self.get(src);
                let c = self.carry;
                self.put(dst, b, c);
            },
            HostOp::Or { dst, src } => {
                let a = self.get(dst);
                let b = self.get(src);
                self.put(dst, a | b, false);
            },
            HostOp::And { dst, src } => {
                let a = self.get(dst);
                let b = self.get(src);
                self.put(dst, a & b, false);
            },
            HostOp::Xor { dst, src } => {
                let a = self.get(dst);
                let b = self.get(src);
                self.put(dst, a ^ b, false);
            },
            HostOp::Add { dst, src } => {
                let a = self.get(dst);
                let b = self.get(src);
                self.put(dst, a.wrapping_add(b), a as u16 + b as u16 > 255);
            },
            HostOp::Sub { dst, src } => {
                let a = self.get(dst);
                let b = self.get(src);
                self.put(dst, a.wrapping_sub(b), a < b);
            },
            HostOp::Shr1 { dst } => {
                let a = self.get(dst);
                self.put(dst, a / 2, a % 2 == 1);
            },
            HostOp::Shl1 { dst } => {
                let a = self.get(dst);
                self.put(dst, ((a as u16 * 2) % 256) as u8, a >= 128);
            },
            HostOp::SetCarry { dst } => {
                let c = self.carry;
                self.put(dst, if c { 1 } else { 0 }, c);
            },
            HostOp::SetNoCarry { dst } => {
                let c = self.carry;
                self.put(dst, if c { 0 } else { 1 }, c);
            },
            HostOp::Ret => {},
        }
    }

    /// Runs a sequence of instructions in order.
    pub fn run(&mut self, ops: &Vec<HostOp>)
        ensures
            final(self)@ == exec_ops(old(self)@, ops@),
    {
        let mut i: usize = 0;
        while i < ops.len()
            invariant
                i <= ops.len(),
                self@ == exec_ops(old(self)@, ops@.subrange(0, i as int)),
            decreases ops.len() - i,
        {
            proof {
                assert(ops@.subrange(0, i + 1).drop_last() =~= ops@.subrange(0, i as int));
            }
            self.step(ops[i]);
            i = i + 1;
        }
        proof {
            assert(ops@.subrange(0, i as int) =~= ops@);
        }
    }
}

} // verus!
