use chip8_jit::cpu::CPU;
use chip8_jit::regalloc::TranslateError;
use chip8_jit::Emulator;

#[test]
fn fetch_reads_low_byte_first() {
    let mut cpu = CPU::new();
    cpu.load(&vec![0x66, 0x70, 0x01, 0x02], 0x200);
    cpu.pc = 0x200;
    assert_eq!(cpu.fetch_instruction(), 0x7066);
    assert_eq!(cpu.pc, 0x202);
    assert_eq!(cpu.fetch_instruction(), 0x0201);
    assert_eq!(cpu.pc, 0x204);
}

#[test]
fn load_cuts_at_end_of_memory() {
    let mut cpu = CPU::new();
    cpu.load(&vec![1, 2, 3], 4094);
    assert_eq!(cpu.read_byte(4094), 1);
    assert_eq!(cpu.read_byte(4095), 2);
    assert_eq!(cpu.memory_from(4094, 10), vec![1, 2]);
}

#[test]
fn dispatch_translates_caches_and_runs() {
    let mut emu = Emulator::new();
    // V0 := 2; V0 += 0x66; VC := 0xFF
    emu.load(&vec![0x02, 0x60, 0x66, 0x70, 0xFF, 0x6C], 0x200);
    emu.set_pc(0x200);
    // The block stops at the first unsupported word after the three opcodes.
    assert_eq!(
        emu.step(),
        Err(TranslateError::UnsupportedOpcode { opcode: 0x0000, address: 0x206 })
    );
    assert!(!emu.is_cached(0x200));
    // V1 := 1, then `V1 += 0` up to the end of the block.
    emu.load(&vec![0x01, 0x61], 0x206);
    let mut filler = Vec::new();
    for _ in 0..((0x240 - 0x208) / 2) {
        filler.push(0x00);
        filler.push(0x71);
    }
    emu.load(&filler, 0x208);
    assert_eq!(emu.step(), Ok(()));
    assert!(emu.is_cached(0x200));
    assert_eq!(emu.cpu().v[0], 0x68);
    assert_eq!(emu.cpu().v[12], 0xFF);
    assert_eq!(emu.cpu().v[1], 1);
    assert_eq!(emu.cpu().pc, 0x240);
    // Running the cached block again from the same address.
    emu.set_register(0, 0);
    emu.set_pc(0x200);
    assert_eq!(emu.step(), Ok(()));
    assert_eq!(emu.cpu().v[0], 0x68);
}

#[test]
fn run_stops_at_first_failed_translation() {
    let mut emu = Emulator::new();
    // A full block of `V2 += 1`, then memory that holds only zero words.
    let mut image = Vec::new();
    for _ in 0..32 {
        image.push(0x01);
        image.push(0x72);
    }
    emu.load(&image, 0);
    let (turns, result) = emu.run(5);
    assert_eq!(turns, 2);
    assert_eq!(result, Err(TranslateError::UnsupportedOpcode { opcode: 0, address: 64 }));
    assert_eq!(emu.cpu().v[2], 32);
    assert_eq!(emu.cpu().pc, 64);
    let mut idle = Emulator::new();
    assert_eq!(idle.run(0), (0, Ok(())));
}

#[test]
fn end_of_memory_holds_no_block() {
    let mut emu = Emulator::new();
    emu.set_pc(4095);
    assert_eq!(emu.step(), Err(TranslateError::NoGuestCode { address: 4095 }));
    assert!(!emu.is_cached(4095));
    assert_eq!(emu.cpu().pc, 4095);
    emu.set_pc(5000);
    assert_eq!(emu.run(3), (1, Err(TranslateError::NoGuestCode { address: 5000 })));
    // The last whole instruction of memory still forms a block.
    emu.load(&vec![0x07, 0x63], 4094);
    emu.set_pc(4094);
    assert_eq!(emu.step(), Ok(()));
    assert_eq!(emu.cpu().v[3], 7);
    assert_eq!(emu.cpu().pc, 4096);
    assert_eq!(emu.step(), Err(TranslateError::NoGuestCode { address: 4096 }));
}

#[test]
fn dispatch_in_parts() {
    let mut emu = Emulator::new();
    // A full block of `V4 += 0`.
    let mut image = Vec::new();
    for _ in 0..32 {
        image.push(0x00);
        image.push(0x74);
    }
    emu.load(&image, 0);
    assert_eq!(emu.ensure_cached(), Ok(()));
    let block = emu.block_at(0).expect("cached");
    assert_eq!(block.guest_len(), 64);
    assert_eq!(emu.cpu().pc, 0);
    let mut regs = emu.cpu().v;
    regs[4] = 5;
    emu.finish_turn(regs);
    assert_eq!(emu.cpu().v[4], 5);
    assert_eq!(emu.cpu().pc, 64);
    assert!(emu.block_at(64).is_none());
}

#[test]
fn new_session_is_zeroed() {
    let emu = Emulator::new();
    assert_eq!(emu.cpu().v, [0u8; 16]);
    assert_eq!(emu.cpu().i, 0);
    assert_eq!(emu.cpu().pc, 0);
    assert_eq!(emu.cpu().memory_from(0, 4096), vec![0u8; 4096]);
    assert!(!emu.is_cached(0));
}
