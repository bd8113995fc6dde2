use chip8_jit::basic_block::BasicBlock;
use chip8_jit::cpu::CPU;
use chip8_jit::guest::{decode, GuestOp};
use chip8_jit::host::{HostMachine, HostOp};
use chip8_jit::regalloc::{RegisterAllocator, TranslateError};
use chip8_jit::translate::translate_block;

/// Encodes instruction words low byte first, as the guest fetch reads them.
fn program(words: &[u16]) -> Vec<u8> {
    let mut bytes = Vec::new();
    for w in words {
        bytes.push((*w & 0xff) as u8);
        bytes.push((*w >> 8) as u8);
    }
    bytes
}

/// Translates `words` into a block and runs it on a CPU whose registers
/// start as `regs`.
fn run(words: &[u16], regs: [u8; 16]) -> CPU {
    let mut block = BasicBlock::new();
    let n = block.recompile(&program(words), 0x200).expect("translates");
    assert_eq!(n, 2 * words.len());
    let mut cpu = CPU::new();
    cpu.v = regs;
    block.execute(&mut cpu);
    cpu
}

#[test]
fn add_immediate_to_register_zero() {
    let mut regs = [0u8; 16];
    for (k, r) in regs.iter_mut().enumerate() {
        *r = 0x10 + k as u8;
    }
    regs[0] = 0x02;
    let cpu = run(&[0x7066], regs);
    assert_eq!(cpu.v[0], 0x68);
    for k in 1..16 {
        assert_eq!(cpu.v[k], regs[k]);
    }
}

#[test]
fn scratch_register_copied_to_register_zero() {
    let bytes = program(&[0x6BFF, 0x80B0]);
    let mut alloc = RegisterAllocator::new();
    let block = translate_block(&mut alloc, &bytes, 0).expect("translates");
    assert_eq!(alloc.in_use(), 0);
    assert_eq!(block.guest_len, 4);
    let cpu = run(&[0x6BFF, 0x80B0], [0u8; 16]);
    assert_eq!(cpu.v[0], 0xFF);
    assert_eq!(cpu.v[11], 0xFF);
}

#[test]
fn fourth_scratch_register_is_refused() {
    let mut alloc = RegisterAllocator::new();
    let mut code = Vec::new();
    assert_eq!(alloc.acquire(&mut code, 12), Ok(11));
    assert_eq!(alloc.acquire(&mut code, 13), Ok(12));
    assert_eq!(alloc.acquire(&mut code, 14), Ok(13));
    let before = code.len();
    assert_eq!(alloc.acquire(&mut code, 15), Err(TranslateError::AllocatorExhausted));
    assert_eq!(code.len(), before);
    assert_eq!(alloc.in_use(), 3);
}

#[test]
fn direct_registers_need_no_scratch() {
    let mut alloc = RegisterAllocator::new();
    let mut code = Vec::new();
    for g in 0..11u8 {
        assert_eq!(alloc.acquire(&mut code, g), Ok(g));
    }
    assert!(code.is_empty());
    assert_eq!(alloc.in_use(), 0);
}

#[test]
fn acquire_and_release_emit_spill_and_fill() {
    let mut alloc = RegisterAllocator::new();
    let mut code = Vec::new();
    let host = alloc.acquire(&mut code, 13).unwrap();
    assert_eq!(host, 11);
    assert_eq!(
        code,
        vec![
            HostOp::ReserveStackByte,
            HostOp::StoreToStack { src: 11 },
            HostOp::LoadFromState { dst: 11, offset: 2 },
        ]
    );
    assert_eq!(alloc.in_use(), 1);
    assert_eq!(alloc.release(&mut code, 13, host), Ok(()));
    assert_eq!(alloc.in_use(), 0);
    assert_eq!(
        &code[3..],
        &[
            HostOp::StoreToState { offset: 2, src: 11 },
            HostOp::LoadFromStack { dst: 11 },
            HostOp::FreeStackByte,
        ]
    );
}

#[test]
fn release_out_of_order_is_a_pairing_violation() {
    let mut alloc = RegisterAllocator::new();
    let mut code = Vec::new();
    let a = alloc.acquire(&mut code, 12).unwrap();
    let _b = alloc.acquire(&mut code, 13).unwrap();
    assert_eq!(alloc.release(&mut code, 12, a), Err(TranslateError::PairingViolation));
    assert_eq!(alloc.in_use(), 2);
    assert_eq!(alloc.release(&mut code, 3, 4), Err(TranslateError::PairingViolation));
    let mut fresh = RegisterAllocator::new();
    assert_eq!(fresh.release(&mut code, 12, 11), Err(TranslateError::PairingViolation));
}

#[test]
fn add_registers_sets_carry() {
    let cases: [(u8, u8); 5] = [(0, 0), (200, 55), (200, 56), (255, 255), (1, 2)];
    for (x, y) in [(1u8, 2u8), (12, 3), (4, 13), (11, 14)] {
        for (a, b) in cases {
            let w = [
                0x6000 | (x as u16) << 8 | a as u16,
                0x6000 | (y as u16) << 8 | b as u16,
                0x8004 | (x as u16) << 8 | (y as u16) << 4,
            ];
            let cpu = run(&w, [7u8; 16]);
            assert_eq!(cpu.v[x as usize], a.wrapping_add(b));
            assert_eq!(cpu.v[15], if a as u16 + b as u16 > 255 { 1 } else { 0 });
            assert_eq!(cpu.v[y as usize], b);
        }
    }
}

#[test]
fn sub_registers_sets_no_borrow() {
    let cases: [(u8, u8); 5] = [(0, 0), (5, 3), (3, 5), (0, 255), (255, 0)];
    for (x, y) in [(1u8, 2u8), (12, 3), (4, 15), (11, 14)] {
        for (a, b) in cases {
            let w = [
                0x6000 | (x as u16) << 8 | a as u16,
                0x6000 | (y as u16) << 8 | b as u16,
                0x8005 | (x as u16) << 8 | (y as u16) << 4,
            ];
            let cpu = run(&w, [9u8; 16]);
            assert_eq!(cpu.v[x as usize], a.wrapping_sub(b));
            assert_eq!(cpu.v[15], if a >= b { 1 } else { 0 });
        }
    }
}

#[test]
fn shift_right_sets_low_bit() {
    for x in [0u8, 5, 10, 11, 14] {
        for a in [0u8, 1, 2, 3, 0x80, 0xFF, 0x55] {
            let w = [0x6000 | (x as u16) << 8 | a as u16, 0x8006 | (x as u16) << 8];
            let cpu = run(&w, [0xAAu8; 16]);
            assert_eq!(cpu.v[x as usize], a >> 1);
            assert_eq!(cpu.v[15], a & 1);
        }
    }
}

#[test]
fn shift_left_sets_high_bit() {
    for x in [0u8, 12] {
        for a in [0u8, 1, 0x7F, 0x80, 0xFF] {
            let w = [0x6000 | (x as u16) << 8 | a as u16, 0x800E | (x as u16) << 8];
            let cpu = run(&w, [0u8; 16]);
            assert_eq!(cpu.v[x as usize], a.wrapping_shl(1));
            assert_eq!(cpu.v[15], a >> 7);
        }
    }
}

#[test]
fn every_register_round_trips() {
    for g in 0..16u16 {
        let h = if g == 0 { 1 } else { 0 };
        let kk = 0x30 + g;
        let cpu = run(&[0x6000 | g << 8 | kk, 0x8000 | h << 8 | g << 4], [0u8; 16]);
        assert_eq!(cpu.v[h as usize], kk as u8);
        assert_eq!(cpu.v[g as usize], kk as u8);
    }
}

#[test]
fn reverse_subtract() {
    // V2 := V3 - V2 with V2 = 5, V3 = 3: borrow.
    let cpu = run(&[0x6205, 0x6303, 0x8237], [0u8; 16]);
    assert_eq!(cpu.v[2], 254);
    assert_eq!(cpu.v[3], 3);
    assert_eq!(cpu.v[15], 0);
    // Scratch-backed operands, no borrow.
    let cpu = run(&[0x6C05, 0x6D09, 0x8CD7], [0u8; 16]);
    assert_eq!(cpu.v[12], 4);
    assert_eq!(cpu.v[13], 9);
    assert_eq!(cpu.v[15], 1);
    // The same register on both sides.
    let cpu = run(&[0x6477, 0x8447], [0u8; 16]);
    assert_eq!(cpu.v[4], 0);
    assert_eq!(cpu.v[15], 1);
}

#[test]
fn flag_register_as_destination_ends_with_flag() {
    // VF := 200; V1 := 100; VF += V1: the carry is the last value stored.
    let cpu = run(&[0x6FC8, 0x6164, 0x8F14], [0u8; 16]);
    assert_eq!(cpu.v[15], 1);
    // VF as the source operand: its old value feeds the subtraction.
    let cpu = run(&[0x6F02, 0x6107, 0x81F5], [0u8; 16]);
    assert_eq!(cpu.v[1], 5);
    assert_eq!(cpu.v[15], 1);
}

#[test]
fn bitwise_operations_leave_flag_alone() {
    let cpu = run(&[0x6F42, 0x61F0, 0x623C, 0x8121, 0x6333, 0x8322, 0x640F, 0x8423], [0u8; 16]);
    assert_eq!(cpu.v[1], 0xFC);
    assert_eq!(cpu.v[3], 0x30);
    assert_eq!(cpu.v[4], 0x33);
    assert_eq!(cpu.v[15], 0x42);
}

#[test]
fn add_immediate_wraps_without_flag() {
    let cpu = run(&[0x6EF0, 0x7E20, 0x6F09], [0u8; 16]);
    assert_eq!(cpu.v[14], 0x10);
    assert_eq!(cpu.v[15], 9);
}

#[test]
fn unsupported_opcode_is_reported_with_address() {
    let bytes = program(&[0x6001, 0x1234, 0x6002]);
    let mut alloc = RegisterAllocator::new();
    match translate_block(&mut alloc, &bytes, 0x300) {
        Err(e) => assert_eq!(e, TranslateError::UnsupportedOpcode { opcode: 0x1234, address: 0x302 }),
        Ok(_) => panic!("translated an unsupported opcode"),
    }
    assert_eq!(alloc.in_use(), 0);
    let mut block = BasicBlock::new();
    assert_eq!(
        block.recompile(&program(&[0x8008]), 0),
        Err(TranslateError::UnsupportedOpcode { opcode: 0x8008, address: 0 })
    );
    assert!(!block.is_finalized());
}

#[test]
fn empty_and_odd_input() {
    let mut alloc = RegisterAllocator::new();
    match translate_block(&mut alloc, &vec![], 0x123) {
        Err(e) => assert_eq!(e, TranslateError::NoGuestCode { address: 0x123 }),
        Ok(_) => panic!("translated a block without instructions"),
    }
    assert_eq!(alloc.in_use(), 0);
    let mut block = BasicBlock::new();
    assert_eq!(block.recompile(&vec![0x60], 7), Err(TranslateError::NoGuestCode { address: 7 }));
    assert!(!block.is_finalized());
    let block = translate_block(&mut alloc, &vec![0x01, 0x60, 0x99], 0).unwrap();
    assert_eq!(block.guest_len, 2);
}

#[test]
fn block_stops_at_instruction_limit() {
    let words: Vec<u16> = (0..40).map(|_| 0x7101).collect();
    let mut alloc = RegisterAllocator::new();
    let block = translate_block(&mut alloc, &program(&words), 0).unwrap();
    assert_eq!(block.guest_len, 64);
    let mut cpu = CPU::new();
    let mut bb = BasicBlock::new();
    bb.recompile(&program(&words), 0).unwrap();
    bb.execute(&mut cpu);
    assert_eq!(cpu.v[1], 32);
}

#[test]
fn decodes_opcode_families() {
    assert_eq!(decode(0x6A12), Some(GuestOp::LoadImm { x: 10, kk: 0x12 }));
    assert_eq!(decode(0x7B34), Some(GuestOp::AddImm { x: 11, kk: 0x34 }));
    assert_eq!(decode(0x8120), Some(GuestOp::Copy { x: 1, y: 2 }));
    assert_eq!(decode(0x8124), Some(GuestOp::AddReg { x: 1, y: 2 }));
    assert_eq!(decode(0x8127), Some(GuestOp::SubRev { x: 1, y: 2 }));
    assert_eq!(decode(0x812E), Some(GuestOp::Shl { x: 1 }));
    assert_eq!(decode(0x00E0), None);
    assert_eq!(decode(0x812F), None);
}

#[test]
fn execute_before_translate_is_not_finalized() {
    let block = BasicBlock::new();
    assert!(!block.is_finalized());
    assert!(block.code().is_none());
}

#[test]
fn host_machine_steps() {
    let mut m = HostMachine { regs: vec![0; 14], carry: false, stack: vec![], state: vec![0; 5] };
    m.step(HostOp::MovImm { dst: 0, imm: 200 });
    m.step(HostOp::MovImm { dst: 1, imm: 100 });
    m.step(HostOp::Add { dst: 0, src: 1 });
    assert_eq!(m.regs[0], 44);
    assert!(m.carry);
    m.step(HostOp::SetNoCarry { dst: 2 });
    assert_eq!(m.regs[2], 0);
    m.step(HostOp::ReserveStackByte);
    assert!(!m.carry);
    m.step(HostOp::StoreToStack { src: 1 });
    assert_eq!(m.stack, vec![100]);
}
