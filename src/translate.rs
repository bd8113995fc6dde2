//! The block translator: guest opcodes to host code, proved to reproduce the
//! guest semantics.
use vstd::prelude::*;
use crate::guest::{decode, decode_spec, guest_run, guest_step, well_formed, GuestOp, VF};
use crate::host::{
    enter, exec_ops, leave, lemma_exec_append, lemma_exec_lengths, run_host, step, HostModel, HostOp, DIRECT_REGS, HOST_REGS, STATE_BYTES,
};
use crate::regalloc::{
    acquire_ops, location, release_ops, scratch_reg, RegisterAllocator, TranslateError,
};

verus! {

/// The scratch slots that guest register `g` takes.
pub open spec fn slots(g: u8) -> int {
    if g >= DIRECT_REGS {
        1
    } else {
        0
    }
}

/// Code around `body` for an opcode on one register.
pub open spec fn unary_ops(x: u8, body: Seq<HostOp>) -> Seq<HostOp> {
    acquire_ops(x, 0) + body + release_ops(x, 0)
}

/// Code around `body` for an opcode on two registers.
pub open spec fn binary_ops(x: u8, y: u8, body: Seq<HostOp>) -> Seq<HostOp> {
    acquire_ops(x, 0) + acquire_ops(y, slots(x)) + body + release_ops(y, slots(x))
        + release_ops(x, 0)
}

/// Code around `body` for an opcode on one register that also sets the flag
/// register. The flag register is acquired first, so its value is stored last.
pub open spec fn flag_unary_ops(x: u8, body: Seq<HostOp>) -> Seq<HostOp> {
    acquire_ops(VF, 0) + acquire_ops(x, 1) + body + release_ops(x, 1) + release_ops(VF, 0)
}

/// Code around `body` for an opcode on two registers that also sets the flag
/// register.
pub open spec fn flag_binary_ops(x: u8, y: u8, body: Seq<HostOp>) -> Seq<HostOp> {
    acquire_ops(VF, 0) + acquire_ops(x, 1) + acquire_ops(y, 1 + slots(x)) + body + release_ops(
        y,
        1 + slots(x),
    ) + release_ops(x, 1) + release_ops(VF, 0)
}

/// The host code emitted for one guest opcode.
pub open spec fn op_ops(op: GuestOp) -> Seq<HostOp> {
    match op {
        GuestOp::LoadImm { x, kk } => unary_ops(x, seq![HostOp::MovImm { dst: location(x, 0), imm: kk }]),
        GuestOp::AddImm { x, kk } => unary_ops(x, seq![HostOp::AddImm { dst: location(x, 0), imm: kk }]),
        GuestOp::Copy { x, y } => binary_ops(
            x,
            y,
            seq![HostOp::Mov { dst: location(x, 0), src: location(y, slots(x)) }],
        ),
        GuestOp::Or { x, y } => binary_ops(
            x,
            y,
            seq![HostOp::Or { dst: location(x, 0), src: location(y, slots(x)) }],
        ),
        GuestOp::And { x, y } => binary_ops(
            x,
            y,
            seq![HostOp::And { dst: location(x, 0), src: location(y, slots(x)) }],
        ),
        GuestOp::Xor { x, y } => binary_ops(
            x,
            y,
            seq![HostOp::Xor { dst: location(x, 0), src: location(y, slots(x)) }],
        ),
        GuestOp::AddReg { x, y } => flag_binary_ops(
            x,
            y,
            seq![
                HostOp::Add { dst: location(x, 1), src: location(y, 1 + slots(x)) },
                HostOp::SetCarry { dst: scratch_reg(0) },
            ],
        ),
        GuestOp::SubReg { x, y } => flag_binary_ops(
            x,
            y,
            seq![
                HostOp::Sub { dst: location(x, 1), src: location(y, 1 + slots(x)) },
                HostOp::SetNoCarry { dst: scratch_reg(0) },
            ],
        ),
        GuestOp::SubRev { x, y } => if x == y {
            flag_unary_ops(
                x,
                seq![
                    HostOp::MovImm { dst: location(x, 1), imm: 0 },
                    HostOp::MovImm { dst: scratch_reg(0), imm: 1 },
                ],
            )
        } else {
            flag_binary_ops(x, y, subrev_body(location(x, 1), location(y, 1 + slots(x))))
        },
        GuestOp::Shr { x } => flag_unary_ops(
            x,
            seq![HostOp::Shr1 { dst: location(x, 1) }, HostOp::SetCarry { dst: scratch_reg(0) }],
        ),
        GuestOp::Shl { x } => flag_unary_ops(
            x,
            seq![HostOp::Shl1 { dst: location(x, 1) }, HostOp::SetCarry { dst: scratch_reg(0) }],
        ),
    }
}

/// `rx := ry - rx` with the no-borrow flag in the flag register, keeping `ry`.
pub open spec fn subrev_body(rx: u8, ry: u8) -> Seq<HostOp> {
    seq![
        HostOp::ReserveStackByte,
        HostOp::StoreToStack { src: ry },
        HostOp::Sub { dst: ry, src: rx },
        HostOp::SetNoCarry { dst: scratch_reg(0) },
        HostOp::Mov { dst: rx, src: ry },
        HostOp::LoadFromStack { dst: ry },
        HostOp::FreeStackByte,
    ]
}

/// The host code for a run of guest opcodes, without the final return.
pub open spec fn prog_ops(prog: Seq<GuestOp>) -> Seq<HostOp>
    decreases prog.len(),
{
    if prog.len() == 0 {
        Seq::empty()
    } else {
        prog_ops(prog.drop_last()) + op_ops(prog.last())
    }
}

/// The host code for a whole block: its opcodes, then a return.
pub open spec fn block_ops(prog: Seq<GuestOp>) -> Seq<HostOp> {
    prog_ops(prog).push(HostOp::Ret)
}

/// `m` holds the guest registers `v` as the calling convention lays them out.
pub open spec fn represents(m: HostModel, v: Seq<u8>) -> bool {
    &&& m.regs.len() == HOST_REGS
    &&& m.state.len() == STATE_BYTES
    &&& v.len() == 16
    &&& forall|i: int| 0 <= i < DIRECT_REGS ==> #[trigger] m.regs[i] == v[i]
    &&& forall|j: int| 0 <= j < STATE_BYTES ==> #[trigger] m.state[j] == v[DIRECT_REGS + j]
}

/// `b` has the same stack and the same scratch register values as `a`.
pub open spec fn preserves_native(a: HostModel, b: HostModel) -> bool {
    &&& b.stack == a.stack
    &&& b.regs.len() == a.regs.len()
    &&& forall|r: int| DIRECT_REGS <= r < HOST_REGS ==> #[trigger] b.regs[r] == a.regs[r]
}

pub open spec fn acq_model(m: HostModel, g: u8, k: int) -> HostModel {
    if g < DIRECT_REGS {
        m
    } else {
        HostModel {
            regs: m.regs.update(DIRECT_REGS + k, m.state[g - DIRECT_REGS]),
            carry: false,
            stack: m.stack.push(m.regs[DIRECT_REGS + k]),
            state: m.state,
        }
    }
}

pub open spec fn rel_model(m: HostModel, g: u8, k: int) -> HostModel {
    if g < DIRECT_REGS {
        m
    } else {
        HostModel {
            regs: m.regs.update(DIRECT_REGS + k, m.stack.last()),
            carry: false,
            stack: m.stack.drop_last(),
            state: m.state.update(g - DIRECT_REGS, m.regs[DIRECT_REGS + k]),
        }
    }
}

proof fn lemma_exec_push(m: HostModel, s: Seq<HostOp>, a: HostOp)
    ensures
        exec_ops(m, s.push(a)) == step(exec_ops(m, s), a),
{
    assert(s.push(a).drop_last() =~= s);
}

proof fn lemma_exec_empty(m: HostModel)
    ensures
        exec_ops(m, Seq::<HostOp>::empty()) == m,
{
}

proof fn lemma_acquire(m: HostModel, g: u8, k: int)
    requires
        m.regs.len() == HOST_REGS,
        m.state.len() == STATE_BYTES,
        g < 16,
        0 <= k < 3,
    ensures
        exec_ops(m, acquire_ops(g, k)) == acq_model(m, g, k),
{
    if g >= DIRECT_REGS {
        let s0 = Seq::<HostOp>::empty();
        let a = HostOp::ReserveStackByte;
        let b = HostOp::StoreToStack { src: scratch_reg(k) };
        let c = HostOp::LoadFromState { dst: scratch_reg(k), offset: (g - DIRECT_REGS) as u8 };
        lemma_exec_empty(m);
        lemma_exec_push(m, s0, a);
        lemma_exec_push(m, s0.push(a), b);
        lemma_exec_push(m, s0.push(a).push(b), c);
        assert(acquire_ops(g, k) == s0.push(a).push(b).push(c));
        let m1 = step(m, a);
        let m2 = step(m1, b);
        let m3 = step(m2, c);
        let t = acq_model(m, g, k);
        assert(m2.stack =~= t.stack);
        assert(m3.regs =~= t.regs);
        assert(m3.stack =~= t.stack);
        assert(m3.state =~= t.state);
    }
}

proof fn lemma_release(m: HostModel, g: u8, k: int)
    requires
        m.regs.len() == HOST_REGS,
        m.state.len() == STATE_BYTES,
        m.stack.len() > 0,
        g < 16,
        0 <= k < 3,
    ensures
        exec_ops(m, release_ops(g, k)) == rel_model(m, g, k),
{
    if g >= DIRECT_REGS {
        let s0 = Seq::<HostOp>::empty();
        let a = HostOp::StoreToState { offset: (g - DIRECT_REGS) as u8, src: scratch_reg(k) };
        let b = HostOp::LoadFromStack { dst: scratch_reg(k) };
        let c = HostOp::FreeStackByte;
        lemma_exec_empty(m);
        lemma_exec_push(m, s0, a);
        lemma_exec_push(m, s0.push(a), b);
        lemma_exec_push(m, s0.push(a).push(b), c);
        assert(release_ops(g, k) == s0.push(a).push(b).push(c));
        let m1 = step(m, a);
        let m2 = step(m1, b);
        let m3 = step(m2, c);
        let t = rel_model(m, g, k);
        assert(m3.regs =~= t.regs);
        assert(m3.stack =~= t.stack);
        assert(m3.state =~= t.state);
    }
}

proof fn lemma_body1(m: HostModel, a: HostOp)
    ensures
        exec_ops(m, seq![a]) == step(m, a),
{
    lemma_exec_push(m, Seq::empty(), a);
}

proof fn lemma_body2(m: HostModel, a: HostOp, b: HostOp)
    ensures
        exec_ops(m, seq![a, b]) == step(step(m, a), b),
{
    lemma_body1(m, a);
    lemma_exec_push(m, seq![a], b);
    assert(seq![a].push(b) == seq![a, b]);
}

proof fn lemma_unary(m: HostModel, x: u8, body: Seq<HostOp>)
    requires
        m.regs.len() == HOST_REGS,
        m.state.len() == STATE_BYTES,
        x < 16,
        exec_ops(acq_model(m, x, 0), body).stack == acq_model(m, x, 0).stack,
    ensures
        exec_ops(m, unary_ops(x, body)) == rel_model(exec_ops(acq_model(m, x, 0), body), x, 0),
{
    let a = acquire_ops(x, 0);
    lemma_acquire(m, x, 0);
    let m1 = acq_model(m, x, 0);
    lemma_exec_lengths(m1, body);
    lemma_exec_append(m, a, body);
    lemma_exec_append(m, a + body, release_ops(x, 0));
    let m2 = exec_ops(m1, body);
    if x >= DIRECT_REGS {
        lemma_release(m2, x, 0);
    }
}

proof fn lemma_binary(m: HostModel, x: u8, y: u8, body: Seq<HostOp>)
    requires
        m.regs.len() == HOST_REGS,
        m.state.len() == STATE_BYTES,
        x < 16,
        y < 16,
        exec_ops(acq_model(acq_model(m, x, 0), y, slots(x)), body).stack == acq_model(
            acq_model(m, x, 0),
            y,
            slots(x),
        ).stack,
    ensures
        exec_ops(m, binary_ops(x, y, body)) == rel_model(
            rel_model(
                exec_ops(acq_model(acq_model(m, x, 0), y, slots(x)), body),
                y,
                slots(x),
            ),
            x,
            0,
        ),
{
    let k = slots(x);
    lemma_acquire(m, x, 0);
    let m1 = acq_model(m, x, 0);
    lemma_acquire(m1, y, k);
    let m2 = acq_model(m1, y, k);
    lemma_exec_lengths(m2, body);
    let m3 = exec_ops(m2, body);
    let a1 = acquire_ops(x, 0);
    let a2 = acquire_ops(y, k);
    lemma_exec_append(m, a1, a2);
    lemma_exec_append(m, a1 + a2, body);
    lemma_exec_append(m, a1 + a2 + body, release_ops(y, k));
    lemma_exec_append(m, a1 + a2 + body + release_ops(y, k), release_ops(x, 0));
    if y >= DIRECT_REGS {
        lemma_release(m3, y, k);
    }
    let m4 = rel_model(m3, y, k);
    if x >= DIRECT_REGS {
        lemma_release(m4, x, 0);
    }
}

proof fn lemma_flag_unary(m: HostModel, x: u8, body: Seq<HostOp>)
    requires
        m.regs.len() == HOST_REGS,
        m.state.len() == STATE_BYTES,
        x < 16,
        exec_ops(acq_model(acq_model(m, VF, 0), x, 1), body).stack == acq_model(
            acq_model(m, VF, 0),
            x,
            1,
        ).stack,
    ensures
        exec_ops(m, flag_unary_ops(x, body)) == rel_model(
            rel_model(exec_ops(acq_model(acq_model(m, VF, 0), x, 1), body), x, 1),
            VF,
            0,
        ),
{
    lemma_acquire(m, VF, 0);
    let m1 = acq_model(m, VF, 0);
    lemma_acquire(m1, x, 1);
    let m2 = acq_model(m1, x, 1);
    lemma_exec_lengths(m2, body);
    let m3 = exec_ops(m2, body);
    let a1 = acquire_ops(VF, 0);
    let a2 = acquire_ops(x, 1);
    lemma_exec_append(m, a1, a2);
    lemma_exec_append(m, a1 + a2, body);
    lemma_exec_append(m, a1 + a2 + body, release_ops(x, 1));
    lemma_exec_append(m, a1 + a2 + body + release_ops(x, 1), release_ops(VF, 0));
    if x >= DIRECT_REGS {
        lemma_release(m3, x, 1);
    }
    let m4 = rel_model(m3, x, 1);
    lemma_release(m4, VF, 0);
}

proof fn lemma_flag_binary(m: HostModel, x: u8, y: u8, body: Seq<HostOp>)
    requires
        m.regs.len() == HOST_REGS,
        m.state.len() == STATE_BYTES,
        x < 16,
        y < 16,
        exec_ops(
            acq_model(acq_model(acq_model(m, VF, 0), x, 1), y, 1 + slots(x)),
            body,
        ).stack == acq_model(acq_model(acq_model(m, VF, 0), x, 1), y, 1 + slots(x)).stack,
    ensures
        exec_ops(m, flag_binary_ops(x, y, body)) == rel_model(
            rel_model(
                rel_model(
                    exec_ops(
                        acq_model(acq_model(acq_model(m, VF, 0), x, 1), y, 1 + slots(x)),
                        body,
                    ),
                    y,
                    1 + slots(x),
                ),
                x,
                1,
            ),
            VF,
            0,
        ),
{
    let k = 1 + slots(x);
    lemma_acquire(m, VF, 0);
    let m1 = acq_model(m, VF, 0);
    lemma_acquire(m1, x, 1);
    let m2 = acq_model(m1, x, 1);
    lemma_acquire(m2, y, k);
    let m3 = acq_model(m2, y, k);
    lemma_exec_lengths(m3, body);
    let m4 = exec_ops(m3, body);
    let a1 = acquire_ops(VF, 0);
    let a2 = acquire_ops(x, 1);
    let a3 = acquire_ops(y, k);
    lemma_exec_append(m, a1, a2);
    lemma_exec_append(m, a1 + a2, a3);
    lemma_exec_append(m, a1 + a2 + a3, body);
    lemma_exec_append(m, a1 + a2 + a3 + body, release_ops(y, k));
    lemma_exec_append(m, a1 + a2 + a3 + body + release_ops(y, k), release_ops(x, 1));
    lemma_exec_append(
        m,
        a1 + a2 + a3 + body + release_ops(y, k) + release_ops(x, 1),
        release_ops(VF, 0),
    );
    if y >= DIRECT_REGS {
        lemma_release(m4, y, k);
    }
    let m5 = rel_model(m4, y, k);
    if x >= DIRECT_REGS {
        lemma_release(m5, x, 1);
    }
    let m6 = rel_model(m5, x, 1);
    lemma_release(m6, VF, 0);
}

proof fn lemma_unary_op_correct(m: HostModel, v: Seq<u8>, op: GuestOp)
    requires
        represents(m, v),
        well_formed(op),
        op is LoadImm || op is AddImm,
    ensures
        represents(exec_ops(m, op_ops(op)), guest_step(v, op)),
        preserves_native(m, exec_ops(m, op_ops(op))),
{
    let (x, a) = match op {
        GuestOp::LoadImm { x, kk } => (x, HostOp::MovImm { dst: location(x, 0), imm: kk }),
        GuestOp::AddImm { x, kk } => (x, HostOp::AddImm { dst: location(x, 0), imm: kk }),
        _ => (0, HostOp::Ret),
    };
    let m1 = acq_model(m, x, 0);
    lemma_body1(m1, a);
    lemma_unary(m, x, seq![a]);
    let w = guest_step(v, op);
    let r = exec_ops(m, op_ops(op));
    assert(forall|i: int| 0 <= i < DIRECT_REGS ==> #[trigger] r.regs[i] == w[i]);
    assert(forall|j: int| 0 <= j < STATE_BYTES ==> #[trigger] r.state[j] == w[DIRECT_REGS + j]);
    assert(r.stack =~= m.stack);
    assert(forall|i: int| DIRECT_REGS <= i < HOST_REGS ==> #[trigger] r.regs[i] == m.regs[i]);
}

proof fn lemma_binary_op_correct(m: HostModel, v: Seq<u8>, op: GuestOp)
    requires
        represents(m, v),
        well_formed(op),
        op is Copy || op is Or || op is And || op is Xor,
    ensures
        represents(exec_ops(m, op_ops(op)), guest_step(v, op)),
        preserves_native(m, exec_ops(m, op_ops(op))),
{
    let (x, y, a) = match op {
        GuestOp::Copy { x, y } => (x, y, HostOp::Mov { dst: location(x, 0), src: location(y, slots(x)) }),
        GuestOp::Or { x, y } => (x, y, HostOp::Or { dst: location(x, 0), src: location(y, slots(x)) }),
        GuestOp::And { x, y } => (x, y, HostOp::And { dst: location(x, 0), src: location(y, slots(x)) }),
        GuestOp::Xor { x, y } => (x, y, HostOp::Xor { dst: location(x, 0), src: location(y, slots(x)) }),
        _ => (0, 0, HostOp::Ret),
    };
    let m2 = acq_model(acq_model(m, x, 0), y, slots(x));
    lemma_body1(m2, a);
    lemma_binary(m, x, y, seq![a]);
    let w = guest_step(v, op);
    let r = exec_ops(m, op_ops(op));
    assert(forall|i: int| 0 <= i < DIRECT_REGS ==> #[trigger] r.regs[i] == w[i]);
    assert(forall|j: int| 0 <= j < STATE_BYTES ==> #[trigger] r.state[j] == w[DIRECT_REGS + j]);
    assert(r.stack =~= m.stack);
    assert(forall|i: int| DIRECT_REGS <= i < HOST_REGS ==> #[trigger] r.regs[i] == m.regs[i]);
}

proof fn lemma_flag_binary_op_correct(m: HostModel, v: Seq<u8>, op: GuestOp)
    requires
        represents(m, v),
        well_formed(op),
        op is AddReg || op is SubReg,
    ensures
        represents(exec_ops(m, op_ops(op)), guest_step(v, op)),
        preserves_native(m, exec_ops(m, op_ops(op))),
{
    let (x, y, a, b) = match op {
        GuestOp::AddReg { x, y } => (
            x,
            y,
            HostOp::Add { dst: location(x, 1), src: location(y, 1 + slots(x)) },
            HostOp::SetCarry { dst: scratch_reg(0) },
        ),
        GuestOp::SubReg { x, y } => (
            x,
            y,
            HostOp::Sub { dst: location(x, 1), src: location(y, 1 + slots(x)) },
            HostOp::SetNoCarry { dst: scratch_reg(0) },
        ),
        _ => (0, 0, HostOp::Ret, HostOp::Ret),
    };
    let m3 = acq_model(acq_model(acq_model(m, VF, 0), x, 1), y, 1 + slots(x));
    lemma_body2(m3, a, b);
    lemma_flag_binary(m, x, y, seq![a, b]);
    let w = guest_step(v, op);
    let r = exec_ops(m, op_ops(op));
    assert(forall|i: int| 0 <= i < DIRECT_REGS ==> #[trigger] r.regs[i] == w[i]);
    assert(forall|j: int| 0 <= j < STATE_BYTES ==> #[trigger] r.state[j] == w[DIRECT_REGS + j]);
    assert(r.stack =~= m.stack);
    assert(forall|i: int| DIRECT_REGS <= i < HOST_REGS ==> #[trigger] r.regs[i] == m.regs[i]);
}

proof fn lemma_shr_op_correct(m: HostModel, v: Seq<u8>, op: GuestOp)
    requires
        represents(m, v),
        well_formed(op),
        op is Shr,
    ensures
        represents(exec_ops(m, op_ops(op)), guest_step(v, op)),
        preserves_native(m, exec_ops(m, op_ops(op))),
{
    let (x, a, b) = match op {
        GuestOp::Shr { x } => (
            x,
            HostOp::Shr1 { dst: location(x, 1) },
            HostOp::SetCarry { dst: scratch_reg(0) },
        ),
        _ => (0, HostOp::Ret, HostOp::Ret),
    };
    let m2 = acq_model(acq_model(m, VF, 0), x, 1);
    lemma_body2(m2, a, b);
    lemma_flag_unary(m, x, seq![a, b]);
    let w = guest_step(v, op);
    let r = exec_ops(m, op_ops(op));
    assert(forall|i: int| 0 <= i < DIRECT_REGS ==> #[trigger] r.regs[i] == w[i]);
    assert(forall|j: int| 0 <= j < STATE_BYTES ==> #[trigger] r.state[j] == w[DIRECT_REGS + j]);
    assert(r.stack =~= m.stack);
    assert(forall|i: int| DIRECT_REGS <= i < HOST_REGS ==> #[trigger] r.regs[i] == m.regs[i]);
}

proof fn lemma_shl_op_correct(m: HostModel, v: Seq<u8>, op: GuestOp)
    requires
        represents(m, v),
        well_formed(op),
        op is Shl,
    ensures
        represents(exec_ops(m, op_ops(op)), guest_step(v, op)),
        preserves_native(m, exec_ops(m, op_ops(op))),
{
    let (x, a, b) = match op {
        GuestOp::Shl { x } => (
            x,
            HostOp::Shl1 { dst: location(x, 1) },
            HostOp::SetCarry { dst: scratch_reg(0) },
        ),
        _ => (0, HostOp::Ret, HostOp::Ret),
    };
    let m2 = acq_model(acq_model(m, VF, 0), x, 1);
    lemma_body2(m2, a, b);
    lemma_flag_unary(m, x, seq![a, b]);
    let vx = v[x as int];
    assert(vx / 128 == if vx >= 128 { 1u8 } else { 0u8 });
    let w = guest_step(v, op);
    let r = exec_ops(m, op_ops(op));
    assert(forall|i: int| 0 <= i < DIRECT_REGS ==> #[trigger] r.regs[i] == w[i]);
    assert(forall|j: int| 0 <= j < STATE_BYTES ==> #[trigger] r.state[j] == w[DIRECT_REGS + j]);
    assert(r.stack =~= m.stack);
    assert(forall|i: int| DIRECT_REGS <= i < HOST_REGS ==> #[trigger] r.regs[i] == m.regs[i]);
}

proof fn lemma_subrev_same_op_correct(m: HostModel, v: Seq<u8>, op: GuestOp)
    requires
        represents(m, v),
        well_formed(op),
        op matches GuestOp::SubRev { x, y } && x == y,
    ensures
        represents(exec_ops(m, op_ops(op)), guest_step(v, op)),
        preserves_native(m, exec_ops(m, op_ops(op))),
{
    let (x, a, b) = match op {
        GuestOp::SubRev { x, .. } => (
            x,
            HostOp::MovImm { dst: location(x, 1), imm: 0 },
            HostOp::MovImm { dst: scratch_reg(0), imm: 1 },
        ),
        _ => (0, HostOp::Ret, HostOp::Ret),
    };
    let m2 = acq_model(acq_model(m, VF, 0), x, 1);
    lemma_body2(m2, a, b);
    lemma_flag_unary(m, x, seq![a, b]);
    let w = guest_step(v, op);
    let r = exec_ops(m, op_ops(op));
    assert(forall|i: int| 0 <= i < DIRECT_REGS ==> #[trigger] r.regs[i] == w[i]);
    assert(forall|j: int| 0 <= j < STATE_BYTES ==> #[trigger] r.state[j] == w[DIRECT_REGS + j]);
    assert(r.stack =~= m.stack);
    assert(forall|i: int| DIRECT_REGS <= i < HOST_REGS ==> #[trigger] r.regs[i] == m.regs[i]);
}

proof fn lemma_subrev_body(m: HostModel, rx: u8, ry: u8)
    ensures
        exec_ops(m, subrev_body(rx, ry)) == {
            let s = HostOp::ReserveStackByte;
            step(
                step(
                    step(
                        step(
                            step(step(step(m, s), HostOp::StoreToStack { src: ry }), HostOp::Sub { dst: ry, src: rx }),
                            HostOp::SetNoCarry { dst: scratch_reg(0) },
                        ),
                        HostOp::Mov { dst: rx, src: ry },
                    ),
                    HostOp::LoadFromStack { dst: ry },
                ),
                HostOp::FreeStackByte,
            )
        },
{
    let e = Seq::<HostOp>::empty();
    let o0 = HostOp::ReserveStackByte;
    let o1 = HostOp::StoreToStack { src: ry };
    let o2 = HostOp::Sub { dst: ry, src: rx };
    let o3 = HostOp::SetNoCarry { dst: scratch_reg(0) };
    let o4 = HostOp::Mov { dst: rx, src: ry };
    let o5 = HostOp::LoadFromStack { dst: ry };
    let o6 = HostOp::FreeStackByte;
    lemma_exec_empty(m);
    lemma_exec_push(m, e, o0);
    lemma_exec_push(m, e.push(o0), o1);
    lemma_exec_push(m, e.push(o0).push(o1), o2);
    lemma_exec_push(m, e.push(o0).push(o1).push(o2), o3);
    lemma_exec_push(m, e.push(o0).push(o1).push(o2).push(o3), o4);
    lemma_exec_push(m, e.push(o0).push(o1).push(o2).push(o3).push(o4), o5);
    lemma_exec_push(m, e.push(o0).push(o1).push(o2).push(o3).push(o4).push(o5), o6);
    assert(subrev_body(rx, ry) == e.push(o0).push(o1).push(o2).push(o3).push(o4).push(o5).push(
        o6,
    ));
}

proof fn lemma_subrev_op_correct(m: HostModel, v: Seq<u8>, x: u8, y: u8)
    requires
        represents(m, v),
        x < 16,
        y < 16,
        x != y,
    ensures
        represents(
            exec_ops(m, op_ops(GuestOp::SubRev { x, y })),
            guest_step(v, GuestOp::SubRev { x, y }),
        ),
        preserves_native(m, exec_ops(m, op_ops(GuestOp::SubRev { x, y }))),
{
    let op = GuestOp::SubRev { x, y };
    let rx = location(x, 1);
    let ry = location(y, 1 + slots(x));
    let body = subrev_body(rx, ry);
    let m3 = acq_model(acq_model(acq_model(m, VF, 0), x, 1), y, 1 + slots(x));
    lemma_subrev_body(m3, rx, ry);
    let b0 = step(m3, HostOp::ReserveStackByte);
    let b1 = step(b0, HostOp::StoreToStack { src: ry });
    let b2 = step(b1, HostOp::Sub { dst: ry, src: rx });
    let b3 = step(b2, HostOp::SetNoCarry { dst: scratch_reg(0) });
    let b4 = step(b3, HostOp::Mov { dst: rx, src: ry });
    let b5 = step(b4, HostOp::LoadFromStack { dst: ry });
    let b6 = step(b5, HostOp::FreeStackByte);
    assert(b1.stack =~= m3.stack.push(m3.regs[ry as int]));
    assert(b6.stack =~= m3.stack);
    lemma_flag_binary(m, x, y, body);
    let w = guest_step(v, op);
    let r = exec_ops(m, op_ops(op));
    assert(forall|i: int| 0 <= i < DIRECT_REGS ==> #[trigger] r.regs[i] == w[i]);
    assert(forall|j: int| 0 <= j < STATE_BYTES ==> #[trigger] r.state[j] == w[DIRECT_REGS + j]);
    assert(r.stack =~= m.stack);
    assert(forall|i: int| DIRECT_REGS <= i < HOST_REGS ==> #[trigger] r.regs[i] == m.regs[i]);
}

/// The code for one opcode turns a host state that holds the guest registers
/// `v` into one that holds the registers after the opcode, and leaves the
/// native stack and the scratch registers as it found them.
pub proof fn lemma_op_correct(m: HostModel, v: Seq<u8>, op: GuestOp)
    requires
        represents(m, v),
        well_formed(op),
    ensures
        represents(exec_ops(m, op_ops(op)), guest_step(v, op)),
        preserves_native(m, exec_ops(m, op_ops(op))),
{
    match op {
        GuestOp::LoadImm { .. } | GuestOp::AddImm { .. } => lemma_unary_op_correct(m, v, op),
        GuestOp::Copy { .. } | GuestOp::Or { .. } | GuestOp::And { .. } | GuestOp::Xor {
            ..
        } => lemma_binary_op_correct(m, v, op),
        GuestOp::AddReg { .. } | GuestOp::SubReg { .. } => lemma_flag_binary_op_correct(m, v, op),
        GuestOp::Shr { .. } => lemma_shr_op_correct(m, v, op),
        GuestOp::Shl { .. } => lemma_shl_op_correct(m, v, op),
        GuestOp::SubRev { x, y } => if x == y {
            lemma_subrev_same_op_correct(m, v, op)
        } else {
            lemma_subrev_op_correct(m, v, x, y)
        },
    }
}

/// The code for a run of opcodes does what the opcodes do, in order.
pub proof fn lemma_prog_correct(m: HostModel, v: Seq<u8>, prog: Seq<GuestOp>)
    requires
        represents(m, v),
        forall|i: int| 0 <= i < prog.len() ==> well_formed(#[trigger] prog[i]),
    ensures
        represents(exec_ops(m, prog_ops(prog)), guest_run(v, prog)),
        preserves_native(m, exec_ops(m, prog_ops(prog))),
    decreases prog.len(),
{
    if prog.len() == 0 {
        assert(m.regs =~= m.regs);
    } else {
        let init = prog.drop_last();
        assert forall|i: int| 0 <= i < init.len() implies well_formed(#[trigger] init[i]) by {
            assert(init[i] == prog[i]);
        }
        lemma_prog_correct(m, v, init);
        let mid = exec_ops(m, prog_ops(init));
        lemma_exec_append(m, prog_ops(init), op_ops(prog.last()));
        assert(well_formed(prog[prog.len() - 1]));
        lemma_op_correct(mid, guest_run(v, init), prog.last());
    }
}

/// Translating a block and running it through the call boundary yields the
/// guest registers that the block's opcodes compute.
pub proof fn lemma_block_correct(v: Seq<u8>, prog: Seq<GuestOp>)
    requires
        v.len() == 16,
        forall|i: int| 0 <= i < prog.len() ==> well_formed(#[trigger] prog[i]),
    ensures
        run_host(v, block_ops(prog)) == guest_run(v, prog),
{
    let m = enter(v);
    assert(represents(m, v));
    lemma_prog_correct(m, v, prog);
    let r = exec_ops(m, prog_ops(prog));
    lemma_exec_push(m, prog_ops(prog), HostOp::Ret);
    let w = guest_run(v, prog);
    assert(leave(r) =~= w);
}

/// Acquires `g` where the scratch pool cannot run out.
fn acquire_in_pool(alloc: &mut RegisterAllocator, code: &mut Vec<HostOp>, g: u8) -> (r: u8)
    requires
        g < 16,
        old(alloc).in_use_spec() < 3,
    ensures
        r == location(g, old(alloc).in_use_spec() as int),
        final(code)@ == old(code)@ + acquire_ops(g, old(alloc).in_use_spec() as int),
        final(alloc).in_use_spec() == old(alloc).in_use_spec() + slots(g),
{
    // The pool has room, so the acquire cannot fail.
    match alloc.acquire(code, g) {
        Ok(host) => host,
        Err(_) => 0,
    }
}

/// Releases `g` from the location that the matching acquire gave it.
fn release_in_pool(alloc: &mut RegisterAllocator, code: &mut Vec<HostOp>, g: u8, k: Ghost<int>)
    requires
        g < 16,
        old(alloc).wf(),
        old(alloc).in_use_spec() == k@ + slots(g),
        k@ >= 0,
    ensures
        final(code)@ == old(code)@ + release_ops(g, k@),
        final(alloc).in_use_spec() == k@,
{
    // The location is the one the matching acquire handed out, so the
    // release cannot fail.
    let _ = alloc.release(code, g, if g < DIRECT_REGS { g } else { DIRECT_REGS + (alloc.in_use() - 1) as u8 });
}

/// Emits `Vx := kk` or `Vx += kk`.
fn emit_unary(alloc: &mut RegisterAllocator, code: &mut Vec<HostOp>, op: GuestOp)
    requires
        well_formed(op),
        op is LoadImm || op is AddImm,
        old(alloc).in_use_spec() == 0,
    ensures
        final(code)@ == old(code)@ + op_ops(op),
        final(alloc).in_use_spec() == 0,
{
    let (x, kk) = match op {
        GuestOp::LoadImm { x, kk } | GuestOp::AddImm { x, kk } => (x, kk),
        _ => (0, 0),
    };
    let rx = acquire_in_pool(alloc, code, x);
    if matches!(op, GuestOp::LoadImm { .. }) {
        code.push(HostOp::MovImm { dst: rx, imm: kk });
    } else {
        code.push(HostOp::AddImm { dst: rx, imm: kk });
    }
    release_in_pool(alloc, code, x, Ghost(0));
    proof {
        assert(code@ =~= old(code)@ + op_ops(op));
    }
}

/// Emits a copy or a bitwise operation between two registers.
fn emit_binary(alloc: &mut RegisterAllocator, code: &mut Vec<HostOp>, op: GuestOp)
    requires
        well_formed(op),
        op is Copy || op is Or || op is And || op is Xor,
        old(alloc).in_use_spec() == 0,
    ensures
        final(code)@ == old(code)@ + op_ops(op),
        final(alloc).in_use_spec() == 0,
{
    let (x, y) = match op {
        GuestOp::Copy { x, y } | GuestOp::Or { x, y } | GuestOp::And { x, y } | GuestOp::Xor {
            x,
            y,
        } => (x, y),
        _ => (0, 0),
    };
    let rx = acquire_in_pool(alloc, code, x);
    let ry = acquire_in_pool(alloc, code, y);
    let a = match op {
        GuestOp::Copy { .. } => HostOp::Mov { dst: rx, src: ry },
        GuestOp::Or { .. } => HostOp::Or { dst: rx, src: ry },
        GuestOp::And { .. } => HostOp::And { dst: rx, src: ry },
        _ => HostOp::Xor { dst: rx, src: ry },
    };
    code.push(a);
    release_in_pool(alloc, code, y, Ghost(slots(x)));
    release_in_pool(alloc, code, x, Ghost(0));
    proof {
        assert(code@ =~= old(code)@ + op_ops(op));
    }
}

/// Emits `Vx += Vy` or `Vx -= Vy` with the flag.
fn emit_add_sub(alloc: &mut RegisterAllocator, code: &mut Vec<HostOp>, op: GuestOp)
    requires
        well_formed(op),
        op is AddReg || op is SubReg,
        old(alloc).in_use_spec() == 0,
    ensures
        final(code)@ == old(code)@ + op_ops(op),
        final(alloc).in_use_spec() == 0,
{
    let (x, y) = match op {
        GuestOp::AddReg { x, y } | GuestOp::SubReg { x, y } => (x, y),
        _ => (0, 0),
    };
    let rf = acquire_in_pool(alloc, code, VF);
    let rx = acquire_in_pool(alloc, code, x);
    let ry = acquire_in_pool(alloc, code, y);
    if matches!(op, GuestOp::AddReg { .. }) {
        code.push(HostOp::Add { dst: rx, src: ry });
        code.push(HostOp::SetCarry { dst: rf });
    } else {
        code.push(HostOp::Sub { dst: rx, src: ry });
        code.push(HostOp::SetNoCarry { dst: rf });
    }
    release_in_pool(alloc, code, y, Ghost(1 + slots(x)));
    release_in_pool(alloc, code, x, Ghost(1));
    release_in_pool(alloc, code, VF, Ghost(0));
    proof {
        assert(code@ =~= old(code)@ + op_ops(op));
    }
}

/// Emits `Vx := Vy - Vx` with the flag.
fn emit_subrev(alloc: &mut RegisterAllocator, code: &mut Vec<HostOp>, op: GuestOp)
    requires
        well_formed(op),
        op is SubRev,
        old(alloc).in_use_spec() == 0,
    ensures
        final(code)@ == old(code)@ + op_ops(op),
        final(alloc).in_use_spec() == 0,
{
    let (x, y) = match op {
        GuestOp::SubRev { x, y } => (x, y),
        _ => (0, 0),
    };
    let rf = acquire_in_pool(alloc, code, VF);
    let rx = acquire_in_pool(alloc, code, x);
    if x == y {
        code.push(HostOp::MovImm { dst: rx, imm: 0 });
        code.push(HostOp::MovImm { dst: rf, imm: 1 });
    } else {
        let ry = acquire_in_pool(alloc, code, y);
        code.push(HostOp::ReserveStackByte);
        code.push(HostOp::StoreToStack { src: ry });
        code.push(HostOp::Sub { dst: ry, src: rx });
        code.push(HostOp::SetNoCarry { dst: rf });
        code.push(HostOp::Mov { dst: rx, src: ry });
        code.push(HostOp::LoadFromStack { dst: ry });
        code.push(HostOp::FreeStackByte);
        release_in_pool(alloc, code, y, Ghost(1 + slots(x)));
    }
    release_in_pool(alloc, code, x, Ghost(1));
    release_in_pool(alloc, code, VF, Ghost(0));
    proof {
        assert(code@ =~= old(code)@ + op_ops(op));
    }
}

/// Emits `Vx >>= 1` or `Vx <<= 1` with the flag.
fn emit_shift(alloc: &mut RegisterAllocator, code: &mut Vec<HostOp>, op: GuestOp)
    requires
        well_formed(op),
        op is Shr || op is Shl,
        old(alloc).in_use_spec() == 0,
    ensures
        final(code)@ == old(code)@ + op_ops(op),
        final(alloc).in_use_spec() == 0,
{
    let x = match op {
        GuestOp::Shr { x } | GuestOp::Shl { x } => x,
        _ => 0,
    };
    let rf = acquire_in_pool(alloc, code, VF);
    let rx = acquire_in_pool(alloc, code, x);
    if matches!(op, GuestOp::Shr { .. }) {
        code.push(HostOp::Shr1 { dst: rx });
    } else {
        code.push(HostOp::Shl1 { dst: rx });
    }
    code.push(HostOp::SetCarry { dst: rf });
    release_in_pool(alloc, code, x, Ghost(1));
    release_in_pool(alloc, code, VF, Ghost(0));
    proof {
        assert(code@ =~= old(code)@ + op_ops(op));
    }
}

/// Emits the host code for one guest opcode: acquire every operand, operate,
/// release every operand (the flag register last).
pub fn emit_op(alloc: &mut RegisterAllocator, code: &mut Vec<HostOp>, op: GuestOp)
    requires
        well_formed(op),
        old(alloc).in_use_spec() == 0,
    ensures
        final(code)@ == old(code)@ + op_ops(op),
        final(alloc).in_use_spec() == 0,
{
    match op {
        GuestOp::LoadImm { .. } | GuestOp::AddImm { .. } => emit_unary(alloc, code, op),
        GuestOp::Copy { .. } | GuestOp::Or { .. } | GuestOp::And { .. } | GuestOp::Xor {
            ..
        } => emit_binary(alloc, code, op),
        GuestOp::AddReg { .. } | GuestOp::SubReg { .. } => emit_add_sub(alloc, code, op),
        GuestOp::SubRev { .. } => emit_subrev(alloc, code, op),
        GuestOp::Shr { .. } | GuestOp::Shl { .. } => emit_shift(alloc, code, op),
    }
}

/// The most guest instructions that one block holds.
pub const MAX_BLOCK_INSTRUCTIONS: usize = 32;

/// The number of guest instructions in the block that `bytes` begin.
pub open spec fn block_count(bytes: Seq<u8>) -> int {
    if bytes.len() / 2 < MAX_BLOCK_INSTRUCTIONS {
        (bytes.len() / 2) as int
    } else {
        MAX_BLOCK_INSTRUCTIONS as int
    }
}

/// The instruction word at instruction index `i`: low byte first, as the
/// guest fetch reads it.
pub open spec fn word_at(bytes: Seq<u8>, i: int) -> u16 {
    (bytes[2 * i] + bytes[2 * i + 1] * 256) as u16
}

/// The instruction words of the block that `bytes` begin.
pub open spec fn block_words(bytes: Seq<u8>) -> Seq<u16> {
    Seq::new(block_count(bytes) as nat, |i: int| word_at(bytes, i))
}

/// The guest opcodes that `words` denote, where all are supported.
pub open spec fn decoded(words: Seq<u16>) -> Seq<GuestOp> {
    words.map_values(|w: u16| decode_spec(w).unwrap())
}

/// The translator has code for the opcode in instruction word `w`.
pub open spec fn supported(w: u16) -> bool {
    decode_spec(w) is Some
}

pub open spec fn all_supported(words: Seq<u16>) -> bool {
    forall|i: int| 0 <= i < words.len() ==> #[trigger] supported(words[i])
}

/// `code` and `guest_len` are the translation of the block in `bytes`.
pub open spec fn is_translation(bytes: Seq<u8>, code: Seq<HostOp>, guest_len: usize) -> bool {
    &&& code == block_ops(decoded(block_words(bytes)))
    &&& guest_len == 2 * block_count(bytes)
}

/// `e` reports the first unsupported instruction of the block in `bytes`
/// that starts at guest address `start`.
pub open spec fn first_unsupported(bytes: Seq<u8>, start: u16, e: TranslateError) -> bool {
    let words = block_words(bytes);
    exists|i: int|
        0 <= i < words.len() && !#[trigger] supported(words[i]) && (forall|j: int|
            0 <= j < i ==> supported(words[j])) && e == (TranslateError::UnsupportedOpcode {
            opcode: words[i],
            address: address_of(start, i),
        })
}

/// The guest address of instruction index `i` of a block that starts at `start`.
pub open spec fn address_of(start: u16, i: int) -> u16 {
    ((start + 2 * i) % 65536) as u16
}

/// A block can be built out of `bytes`: they hold at least one
/// instruction, and the translator supports every instruction of the block.
pub open spec fn translatable(bytes: Seq<u8>) -> bool {
    block_count(bytes) > 0 && all_supported(block_words(bytes))
}

/// `e` is the error that translating the block in `bytes`, which starts at
/// guest address `start`, reports.
pub open spec fn translation_error(bytes: Seq<u8>, start: u16, e: TranslateError) -> bool {
    if block_count(bytes) == 0 {
        e == (TranslateError::NoGuestCode { address: start })
    } else {
        first_unsupported(bytes, start, e)
    }
}

/// A translated block: host code ending in a return, and the number of guest
/// bytes it covers.
pub struct TranslatedBlock {
    pub code: Vec<HostOp>,
    pub guest_len: usize,
}

/// Translates the guest code in `bytes`, which starts at guest address
/// `start`, into one block. The block takes instructions until the bytes or
/// the instruction limit run out; bytes without a whole instruction, or an
/// unsupported opcode, fail the whole block. The allocator is reset first
/// and is drained afterwards.
pub fn translate_block(alloc: &mut RegisterAllocator, bytes: &Vec<u8>, start: u16) -> (r: Result<
    TranslatedBlock,
    TranslateError,
>)
    ensures
        final(alloc).wf(),
        final(alloc).in_use_spec() == 0,
        (r is Ok) == translatable(bytes@),
        (r matches Ok(b) ==> is_translation(bytes@, b.code@, b.guest_len) && b.guest_len > 0),
        (r matches Err(e) ==> translation_error(bytes@, start, e)),
{
    alloc.reset();
    let count: usize = if bytes.len() / 2 < MAX_BLOCK_INSTRUCTIONS {
        bytes.len() / 2
    } else {
        MAX_BLOCK_INSTRUCTIONS
    };
    if count == 0 {
        return Err(TranslateError::NoGuestCode { address: start });
    }
    let ghost words = block_words(bytes@);
    let mut code: Vec<HostOp> = Vec::new();
    let mut i: usize = 0;
    while i < count
        invariant
            count == block_count(bytes@),
            words == block_words(bytes@),
            i <= count,
            alloc.wf(),
            alloc.in_use_spec() == 0,
            forall|j: int| 0 <= j < i ==> #[trigger] supported(words[j]),
            code@ == prog_ops(decoded(words).take(i as int)),
        decreases count - i,
    {
        let lo = bytes[2 * i] as u16;
        let hi = bytes[2 * i + 1] as u16;
        let word = lo + hi * 256;
        assert(word == words[i as int]);
        match decode(word) {
            None => {
                let address = start.wrapping_add((2 * i) as u16);
                assert(address == address_of(start, i as int));
                assert(!supported(words[i as int]));
                return Err(TranslateError::UnsupportedOpcode { opcode: word, address });
            },
            Some(op) => {
                proof {
                    let p = decoded(words).take(i + 1);
                    assert(p.drop_last() =~= decoded(words).take(i as int));
                    assert(p.last() == op);
                }
                emit_op(alloc, &mut code, op);
            },
        }
        i = i + 1;
    }
    proof {
        assert(decoded(words).take(count as int) =~= decoded(words));
    }
    code.push(HostOp::Ret);
    Ok(TranslatedBlock { code, guest_len: 2 * count })
}

} // verus!
