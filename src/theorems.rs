//! What holds of translating a block and running it, for all inputs.
use vstd::prelude::*;
use crate::guest::{decode_spec, guest_run, guest_step, well_formed, GuestOp, VF};
use crate::host::{run_host, HostOp};
use crate::translate::{
    all_supported, block_ops, block_words, decoded, is_translation, lemma_block_correct, supported,
};

verus! {

proof fn lemma_run3(v: Seq<u8>, a: GuestOp, b: GuestOp, c: GuestOp)
    requires
        v.len() == 16,
        well_formed(a),
        well_formed(b),
        well_formed(c),
    ensures
        run_host(v, block_ops(seq![a, b, c])) == guest_step(guest_step(guest_step(v, a), b), c),
{
    let p = seq![a, b, c];
    assert(p.drop_last() =~= seq![a, b]);
    assert(seq![a, b].drop_last() =~= seq![a]);
    assert(seq![a].drop_last() =~= Seq::<GuestOp>::empty());
    reveal_with_fuel(guest_run, 4);
    lemma_block_correct(v, p);
}

proof fn lemma_run2(v: Seq<u8>, a: GuestOp, b: GuestOp)
    requires
        v.len() == 16,
        well_formed(a),
        well_formed(b),
    ensures
        run_host(v, block_ops(seq![a, b])) == guest_step(guest_step(v, a), b),
{
    let p = seq![a, b];
    assert(p.drop_last() =~= seq![a]);
    assert(seq![a].drop_last() =~= Seq::<GuestOp>::empty());
    reveal_with_fuel(guest_run, 3);
    lemma_block_correct(v, p);
}

/// After `Vx := a; Vy := b; Vx += Vy`, `Vx` holds `(a + b) mod 256` and the
/// flag register holds 1 exactly when `a + b` exceeds 255. (When `x` is the
/// flag register itself, the flag overwrites the sum.)
pub proof fn law_add_sets_carry(v: Seq<u8>, x: u8, y: u8, a: u8, b: u8)
    requires
        v.len() == 16,
        x < 16,
        y < 16,
        x != y,
        x != VF,
    ensures
        ({
            let w = run_host(
                v,
                block_ops(
                    seq![
                        GuestOp::LoadImm { x, kk: a },
                        GuestOp::LoadImm { x: y, kk: b },
                        GuestOp::AddReg { x, y },
                    ],
                ),
            );
            &&& w[x as int] == (a + b) % 256
            &&& (w[VF as int] == 1) == (a + b > 255)
            &&& (w[VF as int] == 0) == (a + b <= 255)
        }),
{
    lemma_run3(
        v,
        GuestOp::LoadImm { x, kk: a },
        GuestOp::LoadImm { x: y, kk: b },
        GuestOp::AddReg { x, y },
    );
}

/// After `Vx := a; Vy := b; Vx -= Vy`, `Vx` holds `(a - b) mod 256` and the
/// flag register holds 1 exactly when `a >= b` (no borrow).
pub proof fn law_sub_sets_no_borrow(v: Seq<u8>, x: u8, y: u8, a: u8, b: u8)
    requires
        v.len() == 16,
        x < 16,
        y < 16,
        x != y,
        x != VF,
    ensures
        ({
            let w = run_host(
                v,
                block_ops(
                    seq![
                        GuestOp::LoadImm { x, kk: a },
                        GuestOp::LoadImm { x: y, kk: b },
                        GuestOp::SubReg { x, y },
                    ],
                ),
            );
            &&& w[x as int] == (a - b + 256) % 256
            &&& (w[VF as int] == 1) == (a >= b)
            &&& (w[VF as int] == 0) == (a < b)
        }),
{
    lemma_run3(
        v,
        GuestOp::LoadImm { x, kk: a },
        GuestOp::LoadImm { x: y, kk: b },
        GuestOp::SubReg { x, y },
    );
}

/// After `Vx := a; Vx >>= 1`, `Vx` holds `a >> 1` and the flag register holds
/// the bit shifted out, `a & 1`.
pub proof fn law_shift_right_sets_low_bit(v: Seq<u8>, x: u8, a: u8)
    requires
        v.len() == 16,
        x < 16,
        x != VF,
    ensures
        ({
            let w = run_host(v, block_ops(seq![GuestOp::LoadImm { x, kk: a }, GuestOp::Shr { x }]));
            &&& w[x as int] == a >> 1
            &&& w[VF as int] == a & 1
        }),
{
    lemma_run2(v, GuestOp::LoadImm { x, kk: a }, GuestOp::Shr { x });
    assert(a >> 1 == a / 2 && a & 1 == a % 2) by (bit_vector);
}

/// A value written to any guest register with `Vg := kk` and copied at once
/// into another register `h` with `Vh := Vg` arrives there unchanged, whether
/// `g` has a host register of its own or lives in the state area.
pub proof fn law_register_round_trip(v: Seq<u8>, g: u8, h: u8, kk: u8)
    requires
        v.len() == 16,
        g < 16,
        h < 16,
        g != h,
    ensures
        ({
            let w = run_host(
                v,
                block_ops(seq![GuestOp::LoadImm { x: g, kk }, GuestOp::Copy { x: h, y: g }]),
            );
            &&& w[h as int] == kk
            &&& w[g as int] == kk
        }),
{
    lemma_run2(v, GuestOp::LoadImm { x: g, kk }, GuestOp::Copy { x: h, y: g });
}

proof fn lemma_decoded_well_formed(w: u16)
    requires
        supported(w),
    ensures
        well_formed(decode_spec(w).unwrap()),
{
}

/// Whatever guest code `bytes` hold, the code of a successful translation,
/// run on any guest registers `v`, leaves the registers that the block's
/// opcodes compute one after another.
pub proof fn law_translation_matches_guest(
    bytes: Seq<u8>,
    code: Seq<HostOp>,
    guest_len: usize,
    v: Seq<u8>,
)
    requires
        v.len() == 16,
        all_supported(block_words(bytes)),
        is_translation(bytes, code, guest_len),
    ensures
        run_host(v, code) == guest_run(v, decoded(block_words(bytes))),
{
    let words = block_words(bytes);
    let prog = decoded(words);
    assert forall|i: int| 0 <= i < prog.len() implies well_formed(#[trigger] prog[i]) by {
        assert(supported(words[i]));
        lemma_decoded_well_formed(words[i]);
    }
    lemma_block_correct(v, prog);
}

} // verus!
