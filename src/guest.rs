//! Guest opcodes: decoding and the semantics they must reproduce.
use vstd::prelude::*;

verus! {

/// The flag register.
pub const VF: u8 = 15;

/// A decoded guest opcode of the families the translator supports.
#[derive(Clone, Copy, Debug, PartialEq, Eq, Structural)]
pub enum GuestOp {
    /// `6xkk`: `Vx := kk`
    LoadImm { x: u8, kk: u8 },
    /// `7xkk`: `Vx += kk`, flags untouched
    AddImm { x: u8, kk: u8 },
    /// `8xy0`: `Vx := Vy`
    Copy { x: u8, y: u8 },
    /// `8xy1`: `Vx |= Vy`
    Or { x: u8, y: u8 },
    /// `8xy2`: `Vx &= Vy`
    And { x: u8, y: u8 },
    /// `8xy3`: `Vx ^= Vy`
    Xor { x: u8, y: u8 },
    /// `8xy4`: `Vx += Vy`, `VF` := carry
    AddReg { x: u8, y: u8 },
    /// `8xy5`: `Vx -= Vy`, `VF` := no borrow
    SubReg { x: u8, y: u8 },
    /// `8xy7`: `Vx := Vy - Vx`, `VF` := no borrow
    SubRev { x: u8, y: u8 },
    /// `8xy6`: `Vx >>= 1`, `VF` := the bit shifted out
    Shr { x: u8 },
    /// `8xyE`: `Vx <<= 1`, `VF` := the bit shifted out
    Shl { x: u8 },
}

/// Register operands name one of the sixteen guest registers.
pub open spec fn well_formed(op: GuestOp) -> bool {
    match op {
        GuestOp::LoadImm { x, .. } | GuestOp::AddImm { x, .. } => x < 16,
        GuestOp::Copy { x, y } | GuestOp::Or { x, y } | GuestOp::And { x, y } | GuestOp::Xor {
            x,
            y,
        } | GuestOp::AddReg { x, y } | GuestOp::SubReg { x, y } | GuestOp::SubRev { x, y } => x
            < 16 && y < 16,
        GuestOp::Shr { x } | GuestOp::Shl { x } => x < 16,
    }
}

pub open spec fn nibble(opcode: u16, k: int) -> u8 {
    ((opcode as int / pow16(k)) % 16) as u8
}

pub open spec fn pow16(k: int) -> int {
    if k == 0 {
        1
    } else if k == 1 {
        16
    } else if k == 2 {
        256
    } else {
        4096
    }
}

/// The guest opcode that a 16-bit instruction word denotes, if supported.
pub open spec fn decode_spec(opcode: u16) -> Option<GuestOp> {
    let top = nibble(opcode, 3);
    let x = nibble(opcode, 2);
    let y = nibble(opcode, 1);
    let n = nibble(opcode, 0);
    let kk = (opcode % 256) as u8;
    if top == 6 {
        Some(GuestOp::LoadImm { x, kk })
    } else if top == 7 {
        Some(GuestOp::AddImm { x, kk })
    } else if top == 8 {
        if n == 0 {
            Some(GuestOp::Copy { x, y })
        } else if n == 1 {
            Some(GuestOp::Or { x, y })
        } else if n == 2 {
            Some(GuestOp::And { x, y })
        } else if n == 3 {
            Some(GuestOp::Xor { x, y })
        } else if n == 4 {
            Some(GuestOp::AddReg { x, y })
        } else if n == 5 {
            Some(GuestOp::SubReg { x, y })
        } else if n == 6 {
            Some(GuestOp::Shr { x })
        } else if n == 7 {
            Some(GuestOp::SubRev { x, y })
        } else if n == 14 {
            Some(GuestOp::Shl { x })
        } else {
            None
        }
    } else {
        None
    }
}

/// Decodes one instruction word.
pub fn decode(opcode: u16) -> (r: Option<GuestOp>)
    ensures
        r == decode_spec(opcode),
        r matches Some(op) ==> well_formed(op),
{
    let top = ((opcode / 4096) % 16) as u8;
    let x = ((opcode / 256) % 16) as u8;
    let y = ((opcode / 16) % 16) as u8;
    let n = (opcode % 16) as u8;
    let kk = (opcode % 256) as u8;
    if top == 6 {
        Some(GuestOp::LoadImm { x, kk })
    } else if top == 7 {
        Some(GuestOp::AddImm { x, kk })
    } else if top == 8 {
        if n == 0 {
            Some(GuestOp::Copy { x, y })
        } else if n == 1 {
            Some(GuestOp::Or { x, y })
        } else if n == 2 {
            Some(GuestOp::And { x, y })
        } else if n == 3 {
            Some(GuestOp::Xor { x, y })
        } else if n == 4 {
            Some(GuestOp::AddReg { x, y })
        } else if n == 5 {
            Some(GuestOp::SubReg { x, y })
        } else if n == 6 {
            Some(GuestOp::Shr { x })
        } else if n == 7 {
            Some(GuestOp::SubRev { x, y })
        } else if n == 14 {
            Some(GuestOp::Shl { x })
        } else {
            None
        }
    } else {
        None
    }
}

pub open spec fn flag(b: bool) -> u8 {
    if b {
        1
    } else {
        0
    }
}

/// The guest registers after one opcode. Where an opcode writes a flag, the
/// flag is computed from the operands before the operation and written last.
pub open spec fn guest_step(v: Seq<u8>, op: GuestOp) -> Seq<u8> {
    match op {
        GuestOp::LoadImm { x, kk } => v.update(x as int, kk),
        GuestOp::AddImm { x, kk } => v.update(x as int, ((v[x as int] + kk) % 256) as u8),
        GuestOp::Copy { x, y } => v.update(x as int, v[y as int]),
        GuestOp::Or { x, y } => v.update(x as int, v[x as int] | v[y as int]),
        GuestOp::And { x, y } => v.update(x as int, v[x as int] & v[y as int]),
        GuestOp::Xor { x, y } => v.update(x as int, v[x as int] ^ v[y as int]),
        GuestOp::AddReg { x, y } => v.update(
            x as int,
            ((v[x as int] + v[y as int]) % 256) as u8,
        ).update(VF as int, flag(v[x as int] + v[y as int] > 255)),
        GuestOp::SubReg { x, y } => v.update(
            x as int,
            ((v[x as int] - v[y as int] + 256) % 256) as u8,
        ).update(VF as int, flag(v[x as int] >= v[y as int])),
        GuestOp::SubRev { x, y } => v.update(
            x as int,
            ((v[y as int] - v[x as int] + 256) % 256) as u8,
        ).update(VF as int, flag(v[y as int] >= v[x as int])),
        GuestOp::Shr { x } => v.update(x as int, v[x as int] / 2).update(
            VF as int,
            v[x as int] % 2,
        ),
        GuestOp::Shl { x } => v.update(x as int, ((v[x as int] * 2) % 256) as u8).update(
            VF as int,
            v[x as int] / 128,
        ),
    }
}

/// The guest registers after a run of opcodes, in order.
pub open spec fn guest_run(v: Seq<u8>, prog: Seq<GuestOp>) -> Seq<u8>
    decreases prog.len(),
{
    if prog.len() == 0 {
        v
    } else {
        guest_step(guest_run(v, prog.drop_last()), prog.last())
    }
}

} // verus!
