use capstone::arch::BuildsCapstone;
use capstone::arch::BuildsCapstoneSyntax;
use capstone::Capstone;
use ropgadget_rs::collect_all_gadgets;
use ropgadget_rs::cpu::arm::{Arm, Arm64};
use ropgadget_rs::cpu::x86::{X64, X86};
use ropgadget_rs::engine::{CapstoneDisassembler, Disassembler};
use ropgadget_rs::gadget::{Gadget, InstructionGroup};
use ropgadget_rs::session::{RopGadgetOutput, RopProfileStrategy, Session};

/// Bytes without any pattern to them, the same at every run.
fn noise(seed: u64, len: usize) -> Vec<u8> {
    let mut state = seed;
    let mut bytes = Vec::with_capacity(len);
    for _ in 0..len {
        state = state.wrapping_mul(6364136223846793005).wrapping_add(1442695040888963407);
        bytes.push((state >> 56) as u8);
    }
    bytes
}

fn elf(wide: bool, machine: u16, base: u64, code: &[u8]) -> Vec<u8> {
    let header_size = if wide { 64 } else { 52 };
    let entry_size = if wide { 64 } else { 40 };
    let mut image = vec![0u8; header_size];
    image[0..4].copy_from_slice(&[0x7f, b'E', b'L', b'F']);
    image[4] = if wide { 2 } else { 1 };
    image[5] = 1;
    image[18..20].copy_from_slice(&machine.to_le_bytes());
    let mut header = vec![0u8; entry_size];
    let data = (header_size + entry_size) as u64;
    if wide {
        image[40..48].copy_from_slice(&(header_size as u64).to_le_bytes());
        image[60..62].copy_from_slice(&1u16.to_le_bytes());
        header[0x08..0x10].copy_from_slice(&6u64.to_le_bytes());
        header[0x10..0x18].copy_from_slice(&base.to_le_bytes());
        header[0x18..0x20].copy_from_slice(&data.to_le_bytes());
        header[0x20..0x28].copy_from_slice(&(code.len() as u64).to_le_bytes());
    } else {
        image[32..36].copy_from_slice(&(header_size as u32).to_le_bytes());
        image[48..50].copy_from_slice(&1u16.to_le_bytes());
        header[0x08..0x0c].copy_from_slice(&6u32.to_le_bytes());
        header[0x0c..0x10].copy_from_slice(&(base as u32).to_le_bytes());
        header[0x10..0x14].copy_from_slice(&(data as u32).to_le_bytes());
        header[0x14..0x18].copy_from_slice(&(code.len() as u32).to_le_bytes());
    }
    image.extend_from_slice(&header);
    image.extend_from_slice(code);
    image
}

fn search(image: Vec<u8>, group: InstructionGroup, unique: bool) -> Vec<Gadget> {
    let session = Session::new("noise".to_string(), image)
        .unwrap()
        .output(RopGadgetOutput::NoOutput)
        .gadget_type(group)
        .profile_type(RopProfileStrategy::Complete)
        .unique_only(unique);
    collect_all_gadgets(session).unwrap()
}

fn check(gadgets: &[Gadget], group: InstructionGroup, base: u64, code: &[u8], stride: usize) {
    for pair in gadgets.windows(2) {
        assert!(pair[0].address <= pair[1].address);
    }
    for g in gadgets {
        assert!(!g.insns.is_empty() && g.insns.len() <= 6);
        assert_eq!(g.insns.last().unwrap().group, group);
        for insn in &g.insns[..g.insns.len() - 1] {
            assert_eq!(insn.group, InstructionGroup::Undefined);
        }
        assert_eq!(g.address, g.insns[0].address);
        assert_eq!(g.size, g.raw.len());
        assert_eq!(g.size, g.insns.iter().map(|i| i.size).sum::<usize>());
        for pair in g.insns.windows(2) {
            assert_eq!(pair[1].address, pair[0].address + pair[0].size as u64);
        }
        assert!(g.address >= base && g.address + g.size as u64 <= base + code.len() as u64);
        let start = (g.address - base) as usize;
        assert_eq!(g.raw, code[start..start + g.size].to_vec());
        assert!(g.size <= 16 + 5 && g.size <= 32);
        assert_eq!(g.size % stride, 0);
    }
}

#[test]
fn gadgets_of_noise_keep_what_is_promised_of_them() {
    let code = noise(1, 6000);
    for group in [InstructionGroup::Ret, InstructionGroup::Call, InstructionGroup::Jump] {
        for unique in [false, true] {
            let x64 = search(elf(true, 0x3e, 0x40_0000, &code), group, unique);
            check(&x64, group, 0x40_0000, &code, 1);
            let x86 = search(elf(false, 0x03, 0x40_0000, &code), group, unique);
            check(&x86, group, 0x40_0000, &code, 1);
        }
    }
    assert!(!search(elf(true, 0x3e, 0x40_0000, &code), InstructionGroup::Ret, false).is_empty());
    assert!(!search(elf(false, 0x03, 0x40_0000, &code), InstructionGroup::Ret, false).is_empty());
}

#[test]
fn gadgets_of_arm_words_keep_what_is_promised_of_them() {
    let mut code = noise(2, 6000);
    // a few returns, calls and jumps through registers among the noise
    for (i, word) in code.chunks_exact_mut(4).enumerate() {
        match i % 41 {
            0 => word.copy_from_slice(&[0xc0, 0x03, 0x5f, 0xd6]),
            7 => word.copy_from_slice(&[0x20, 0x00, 0x3f, 0xd6]),
            13 => word.copy_from_slice(&[0x40, 0x00, 0x1f, 0xd6]),
            _ => {}
        }
    }
    let mut found = 0;
    for group in [InstructionGroup::Ret, InstructionGroup::Call, InstructionGroup::Jump] {
        let arm64 = search(elf(true, 0x28, 0x40_0000, &code), group, false);
        check(&arm64, group, 0x40_0000, &code, 4);
        found += arm64.len();
        let arm = search(elf(false, 0x28, 0x8000, &code), group, false);
        check(&arm, group, 0x8000, &code, 4);
    }
    assert!(found > 0);
}

#[test]
fn what_capstone_decodes_is_always_taken_for_a_decoding() {
    let code = noise(3, 4096);
    let x64 = Capstone::new()
        .x86()
        .mode(capstone::arch::x86::ArchMode::Mode64)
        .syntax(capstone::arch::x86::ArchSyntax::Intel)
        .detail(true)
        .build()
        .unwrap();
    let x86 = Capstone::new()
        .x86()
        .mode(capstone::arch::x86::ArchMode::Mode32)
        .syntax(capstone::arch::x86::ArchSyntax::Intel)
        .detail(true)
        .build()
        .unwrap();
    let arm = Capstone::new().arm().mode(capstone::arch::arm::ArchMode::Arm).detail(true).build().unwrap();
    let arm64 =
        Capstone::new().arm64().mode(capstone::arch::arm64::ArchMode::Arm).detail(true).build().unwrap();
    let engines: Vec<(Capstone, CapstoneDisassembler)> = vec![
        (x64, CapstoneDisassembler::new(&X64).ok().unwrap()),
        (x86, CapstoneDisassembler::new(&X86).ok().unwrap()),
        (arm, CapstoneDisassembler::new(&Arm).ok().unwrap()),
        (arm64, CapstoneDisassembler::new(&Arm64).ok().unwrap()),
    ];
    for (capstone, engine) in &engines {
        for start in (0..code.len() - 24).step_by(7) {
            for address in [0u64, 0x40_0000, u64::MAX - 23] {
                let window = code[start..start + 24].to_vec();
                let decoded = capstone.disasm_all(&window, address).unwrap();
                let insns = engine.disassemble(&window, address);
                match insns {
                    None => assert_eq!(decoded.len(), 0),
                    Some(insns) => {
                        assert_eq!(insns.len(), decoded.len());
                        for (ours, theirs) in insns.iter().zip(decoded.iter()) {
                            assert_eq!(ours.address, theirs.address());
                            assert_eq!(ours.raw, theirs.bytes());
                            assert_eq!(ours.mnemonic, theirs.mnemonic().unwrap());
                        }
                    }
                }
            }
        }
    }
}
