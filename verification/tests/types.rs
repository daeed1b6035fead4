use ropgadget_rs::collect_all_gadgets;
use ropgadget_rs::cpu::arm::{Arm, Arm64};
use ropgadget_rs::cpu::x86::{X64, X86};
use ropgadget_rs::cpu::{cpu_of, AnyCpu, Cpu, CpuType};
use ropgadget_rs::format::ExecutableFileFormat;
use ropgadget_rs::engine::{
    capstone_name, checked_decoding, disassembler_label, engine_label, group_of, instruction_of, instructions_of,
    CapstoneDisassembler,
    DecodedInsn,
    Disassembler, DisassemblyEngine, DisassemblyEngineType,
};
use ropgadget_rs::error::{Error, GenericError, InvalidFormatError};
use ropgadget_rs::gadget::{join_insns, join_text, Gadget, Instruction, InstructionGroup};
use ropgadget_rs::matcher::chunk_size;
use ropgadget_rs::numbers::format_byte_list;
use ropgadget_rs::section::{
    without_nul, ElfSectionValues, MachSegmentValues, Permission, Section,
};
use ropgadget_rs::session::{
    find_gadgets, thread_worker, worker_batches, worker_cursors, RopGadgetOutput, RopProfileStrategy, Session,
    Verbosity,
};

fn session(code: Vec<u8>) -> Session {
    let mut image = vec![0u8; 64];
    image[0..4].copy_from_slice(&[0x7f, 0x45, 0x4c, 0x46]);
    image[4] = 2;
    image[5] = 1;
    image[18..20].copy_from_slice(&0x3eu16.to_le_bytes());
    image[40..48].copy_from_slice(&64u64.to_le_bytes());
    image[58..60].copy_from_slice(&64u16.to_le_bytes());
    image[60..62].copy_from_slice(&1u16.to_le_bytes());
    let mut header = vec![0u8; 64];
    header[0x08..0x10].copy_from_slice(&6u64.to_le_bytes());
    header[0x10..0x18].copy_from_slice(&0x1000u64.to_le_bytes());
    header[0x18..0x20].copy_from_slice(&128u64.to_le_bytes());
    header[0x20..0x28].copy_from_slice(&(code.len() as u64).to_le_bytes());
    image.extend_from_slice(&header);
    image.extend_from_slice(&code);
    Session::new("memory".to_string(), image).unwrap()
}

fn pattern(opcode: &[u8], mask: &[u8]) -> (Vec<u8>, Vec<u8>) {
    (opcode.to_vec(), mask.to_vec())
}

#[test]
fn section_new_is_filled_with_zeros() {
    let s = Section::new(0x1000, 0x1010);
    assert_eq!(s.start_address, 0x1000);
    assert_eq!(s.end_address, 0x1010);
    assert_eq!(s.size(), 16);
    assert_eq!(s.data, vec![0u8; 16]);
    assert_eq!(s.name, None);
    assert_eq!(s.permission, Permission::default());
    assert!(!s.is_executable() && !s.is_writable() && !s.is_readable());
}

#[test]
fn section_builders_change_one_thing() {
    let s = Section::new(0x1000, 0x1010).name(".text").data(vec![1, 2, 3]);
    assert_eq!(s.name, Some(".text".to_string()));
    assert_eq!(s.data, vec![1, 2, 3]);
    assert_eq!(s.start_address, 0x1000);
    assert_eq!(s.end_address, 0x1010);
    // the size is that of the addresses, whatever bytes the section holds
    assert_eq!(s.size(), 16);
    let d = Section::default();
    assert_eq!((d.start_address, d.end_address, d.size()), (0, 0, 0));
    assert!(d.data.is_empty() && d.name.is_none());
}

#[test]
fn permissions_are_sets_of_flags() {
    assert_eq!(Permission::default().bits(), 0);
    assert_eq!(Permission::new(true, false, false).bits(), 1);
    assert_eq!(Permission::new(false, true, false).bits(), 2);
    assert_eq!(Permission::new(false, false, true).bits(), 4);
    assert_eq!(Permission::new(true, true, true).bits(), 7);
    let rx = Permission::new(true, false, true);
    assert!(rx.contains(Permission::new(true, false, false)));
    assert!(rx.contains(Permission::new(false, false, true)));
    assert!(rx.contains(rx));
    assert!(rx.contains(Permission::default()));
    assert!(!rx.contains(Permission::new(false, true, false)));
    assert!(!rx.contains(Permission::new(true, true, true)));
    let s = Section { permission: rx, ..Section::new(0, 1) };
    assert!(s.is_executable() && s.is_readable() && !s.is_writable());
}

#[test]
fn permissions_come_from_the_flags_of_the_container() {
    assert_eq!(Permission::from(0x6000_0020u32), Permission::new(true, false, true));
    assert_eq!(Permission::from(0xc000_0040u32), Permission::new(true, true, false));
    assert_eq!(Permission::from(0xe000_0000u32), Permission::new(true, true, true));
    assert_eq!(Permission::from(0x2000_0000u32), Permission::new(false, false, true));
    assert_eq!(Permission::from(0x1fff_ffffu32), Permission::default());
    assert_eq!(Permission::from(0x6u64), Permission::new(true, false, true));
    assert_eq!(Permission::from(0x3u64), Permission::new(true, true, false));
    assert_eq!(Permission::from(0x7u64), Permission::new(true, true, true));
    assert_eq!(Permission::from(0x2u64), Permission::default());
    assert_eq!(Permission::from(0u64), Permission::default());
}

#[test]
fn sections_come_from_the_values_of_an_elf_header() {
    let values = |address, size, executable, writable| ElfSectionValues {
        address,
        size,
        executable,
        writable,
    };
    let code = Section::from_elf_values(values(0x1000, 0x10, true, false)).unwrap();
    assert_eq!((code.start_address, code.end_address), (0x1000, 0x1010));
    assert_eq!(code.permission, Permission::new(true, false, true));
    assert_eq!(code.data, vec![0u8; 16]);
    assert_eq!(code.name, None);
    let data = Section::from_elf_values(values(0x2000, 2, false, true)).unwrap();
    assert_eq!(data.permission, Permission::new(true, true, false));
    let both = Section::from_elf_values(values(0x2000, 0, true, true)).unwrap();
    assert_eq!(both.permission, Permission::new(true, true, true));
    assert!(both.data.is_empty());
    let neither = Section::from_elf_values(values(0, 1, false, false)).unwrap();
    assert_eq!(neither.permission, Permission::default());
    assert!(Section::from_elf_values(values(u64::MAX, 1, true, false)).is_none());
    let last = Section::from_elf_values(values(u64::MAX - 1, 1, true, false)).unwrap();
    assert_eq!(last.end_address, u64::MAX);
}

#[test]
fn sections_come_from_the_headers_that_goblin_reads() {
    let header = goblin::elf::section_header::SectionHeader {
        sh_addr: 0x40_1000,
        sh_size: 8,
        sh_flags: 0x6,
        ..Default::default()
    };
    let section = Section::from_elf_header(&header).unwrap();
    assert_eq!((section.start_address, section.end_address), (0x40_1000, 0x40_1008));
    assert_eq!(section.permission, Permission::new(true, false, true));
    assert_eq!(section.data, vec![0u8; 8]);
    // goblin takes a section that is not loaded for one that can neither be run nor written
    let unloaded = goblin::elf::section_header::SectionHeader { sh_flags: 0x5, ..header.clone() };
    assert_eq!(Section::from_elf_header(&unloaded).unwrap().permission, Permission::default());
    let writable = goblin::elf::section_header::SectionHeader { sh_flags: 0x3, ..header.clone() };
    assert_eq!(
        Section::from_elf_header(&writable).unwrap().permission,
        Permission::new(true, true, false)
    );
    let wrapping = goblin::elf::section_header::SectionHeader { sh_addr: u64::MAX, ..header };
    assert!(Section::from_elf_header(&wrapping).is_none());
}

#[test]
fn sections_come_from_the_values_of_a_mach_segment() {
    let values = |flags, name: &[u8]| MachSegmentValues {
        address: 0x1_0000_0000,
        size: 4,
        flags,
        name: name.to_vec(),
    };
    let text = Section::from_mach_values(values(0, b"__TEXT\0\0\0\0\0\0\0\0\0\0")).unwrap();
    assert_eq!((text.start_address, text.end_address), (0x1_0000_0000, 0x1_0000_0004));
    assert_eq!(text.name, Some("__TEXT".to_string()));
    assert_eq!(text.permission, Permission::new(true, false, true));
    assert_eq!(text.data, vec![0u8; 4]);
    let pure = Section::from_mach_values(values(0x8000_0000, b"__TEXT")).unwrap();
    assert_eq!(pure.permission, Permission::new(true, false, true));
    let some = Section::from_mach_values(values(0x0000_0400, b"__TEXT")).unwrap();
    assert_eq!(some.permission, Permission::new(true, false, true));
    let both = Section::from_mach_values(values(0x8000_0400, b"__TEXT")).unwrap();
    assert_eq!(both.permission, Permission::new(true, false, false));
    let odd = Section::from_mach_values(values(0, &[0xff, 0xfe])).unwrap();
    assert_eq!(odd.name, Some(String::new()));
    let wrapping = MachSegmentValues { address: u64::MAX - 3, ..values(0, b"x") };
    assert!(Section::from_mach_values(wrapping).is_none());
}

#[test]
fn sections_come_from_the_segments_that_goblin_reads() {
    let mut segment = goblin::mach::segment::Segment::new(goblin::container::Ctx::default(), &[]);
    segment.segname = *b"__DATA\0\0\0\0\0\0\0\0\0\0";
    segment.vmaddr = 0x2000;
    segment.vmsize = 0x20;
    segment.flags = 0x8000_0400;
    let section = Section::from_mach_segment(&segment).unwrap();
    assert_eq!((section.start_address, section.end_address), (0x2000, 0x2020));
    assert_eq!(section.name, Some("__DATA".to_string()));
    assert_eq!(section.permission, Permission::new(true, false, false));
    assert_eq!(section.data, vec![0u8; 32]);
}

#[test]
fn nul_characters_are_taken_out_of_names() {
    assert_eq!(without_nul("__TEXT\0\0"), "__TEXT");
    assert_eq!(without_nul("\0a\0b\0"), "ab");
    assert_eq!(without_nul("\0\0"), "");
    assert_eq!(without_nul(""), "");
    assert_eq!(without_nul("é\0ü"), "éü");
}

#[test]
fn profiles_hold_the_constants_of_their_cpu() {
    assert_eq!((X86.cpu_type(), X86.ptrsize(), X86.insn_step(), X86.max_rewind_size()), (CpuType::X86, 4, 1, 16));
    assert_eq!((X64.cpu_type(), X64.ptrsize(), X64.insn_step(), X64.max_rewind_size()), (CpuType::X64, 8, 1, 16));
    assert_eq!((Arm.cpu_type(), Arm.ptrsize(), Arm.insn_step(), Arm.max_rewind_size()), (CpuType::ARM, 4, 4, 16));
    assert_eq!(
        (Arm64.cpu_type(), Arm64.ptrsize(), Arm64.insn_step(), Arm64.max_rewind_size()),
        (CpuType::ARM64, 8, 4, 16)
    );
    assert_eq!(X86.name(), "X86");
    assert_eq!(X64.name(), "X64");
    assert_eq!(Arm.name(), "ARM");
    assert_eq!(Arm64.name(), "ARM64");
}

#[test]
fn every_cpu_with_a_profile_can_be_asked_for_by_its_type() {
    assert_eq!(cpu_of(CpuType::X86), Some(AnyCpu::X86(X86)));
    assert_eq!(cpu_of(CpuType::X64), Some(AnyCpu::X64(X64)));
    assert_eq!(cpu_of(CpuType::ARM), Some(AnyCpu::Arm(Arm)));
    assert_eq!(cpu_of(CpuType::ARM64), Some(AnyCpu::Arm64(Arm64)));
    assert_eq!(cpu_of(CpuType::Unknown), None);
    for cpu_type in [CpuType::X86, CpuType::X64, CpuType::ARM, CpuType::ARM64] {
        let cpu = cpu_of(cpu_type).unwrap();
        assert_eq!(cpu.cpu_type(), cpu_type);
        assert_eq!(cpu.name(), cpu_type.to_string());
    }
    let any = cpu_of(CpuType::ARM64).unwrap();
    assert_eq!((any.ptrsize(), any.insn_step(), any.max_rewind_size()), (8, 4, 16));
    assert_eq!(any.ret_insns(), Arm64.ret_insns());
    assert_eq!(any.call_insns(), Arm64.call_insns());
    assert_eq!(any.jmp_insns(), Arm64.jmp_insns());
    let s = session(vec![0xc3]);
    assert_eq!(s.info.format.cpu(), Some(AnyCpu::X64(X64)));
}

#[test]
fn profiles_hold_the_patterns_of_their_cpu() {
    let byte = |b: u8| pattern(&[b], &[0xff]);
    let with_immediate = |b: u8, n: usize| {
        let mut opcode = vec![b];
        let mut mask = vec![0xff];
        opcode.resize(n + 1, 0);
        mask.resize(n + 1, 0);
        (opcode, mask)
    };
    assert_eq!(
        X86.ret_insns(),
        vec![byte(0xc3), with_immediate(0xc2, 2), byte(0xcb), with_immediate(0xca, 2)]
    );
    assert_eq!(X86.call_insns(), vec![with_immediate(0xff, 1)]);
    assert_eq!(X86.jmp_insns(), vec![]);
    assert_eq!(
        X64.ret_insns(),
        vec![byte(0xc3), byte(0xcb), with_immediate(0xc2, 2), with_immediate(0xca, 2)]
    );
    assert_eq!(
        X64.call_insns(),
        vec![with_immediate(0xff, 1), with_immediate(0xe8, 4), with_immediate(0xe9, 4)]
    );
    assert_eq!(X64.jmp_insns(), vec![]);
    assert_eq!(Arm.ret_insns(), vec![pattern(&[0xc0, 0x03, 0x5f, 0xd6], &[0xff; 4])]);
    assert_eq!(
        Arm.call_insns(),
        vec![pattern(&[0x10, 0xff, 0x2f, 0xd1], &[0xf0, 0xff, 0xff, 0xff])]
    );
    assert_eq!(Arm.jmp_insns(), vec![]);
    assert_eq!(
        Arm64.ret_insns(),
        vec![pattern(&[0x00, 0x00, 0x5f, 0xd6], &[0x00, 0xf0, 0xff, 0xff])]
    );
    assert_eq!(
        Arm64.call_insns(),
        vec![pattern(&[0x00, 0x00, 0x3f, 0xd6], &[0x1f, 0xf0, 0xff, 0xff])]
    );
    assert_eq!(
        Arm64.jmp_insns(),
        vec![pattern(&[0x00, 0x00, 0x1f, 0xd6], &[0x1f, 0xf0, 0xff, 0xff])]
    );
}

fn patterns_are_well_formed(groups: Vec<Vec<(Vec<u8>, Vec<u8>)>>, longest: usize) {
    for group in groups {
        for (opcode, mask) in group {
            assert_eq!(opcode.len(), mask.len());
            assert!(1 <= opcode.len() && opcode.len() <= longest);
            for (o, m) in opcode.iter().zip(mask.iter()) {
                assert_eq!(o & !m, 0);
            }
        }
    }
}

#[test]
fn no_opcode_bit_lies_outside_its_mask() {
    patterns_are_well_formed(vec![X86.ret_insns(), X86.call_insns(), X86.jmp_insns()], 5);
    patterns_are_well_formed(vec![X64.ret_insns(), X64.call_insns(), X64.jmp_insns()], 5);
    patterns_are_well_formed(vec![Arm.ret_insns(), Arm.call_insns(), Arm.jmp_insns()], 4);
    patterns_are_well_formed(vec![Arm64.ret_insns(), Arm64.call_insns(), Arm64.jmp_insns()], 4);
}

#[test]
fn enumerations_start_where_they_should() {
    assert_eq!(CpuType::default(), CpuType::Unknown);
    assert_eq!(InstructionGroup::default(), InstructionGroup::Ret);
    assert_eq!(RopProfileStrategy::default(), RopProfileStrategy::Fast);
    assert_eq!(DisassemblyEngineType::default(), DisassemblyEngineType::Invalid);
    assert_eq!(Verbosity::default(), Verbosity::Off);
    assert!(matches!(RopGadgetOutput::default(), RopGadgetOutput::Console));
}

#[test]
fn enumerations_are_spelled_as_their_variants() {
    assert_eq!(CpuType::Unknown.to_string(), "Unknown");
    assert_eq!(CpuType::X86.to_string(), "X86");
    assert_eq!(CpuType::X64.to_string(), "X64");
    assert_eq!(CpuType::ARM.to_string(), "ARM");
    assert_eq!(CpuType::ARM64.to_string(), "ARM64");
    assert_eq!(InstructionGroup::Undefined.to_string(), "Undefined");
    assert_eq!(InstructionGroup::Ret.to_string(), "Ret");
    assert_eq!(InstructionGroup::Jump.to_string(), "Jump");
    assert_eq!(InstructionGroup::Call.to_string(), "Call");
    assert_eq!(InstructionGroup::Int.to_string(), "Int");
    assert_eq!(InstructionGroup::Iret.to_string(), "Iret");
    assert_eq!(InstructionGroup::Privileged.to_string(), "Privileged");
    assert_eq!(RopProfileStrategy::Fast.to_string(), "Fast");
    assert_eq!(RopProfileStrategy::Complete.to_string(), "Complete");
}

#[test]
fn groups_know_what_they_do_to_a_gadget() {
    let transfers = [
        InstructionGroup::Ret,
        InstructionGroup::Jump,
        InstructionGroup::Call,
        InstructionGroup::Int,
        InstructionGroup::Iret,
        InstructionGroup::Privileged,
    ];
    for group in transfers {
        assert!(group.is_disqualifying());
    }
    assert!(!InstructionGroup::Undefined.is_disqualifying());
    for group in [InstructionGroup::Ret, InstructionGroup::Jump, InstructionGroup::Call] {
        assert!(group.is_terminator());
    }
    for group in [
        InstructionGroup::Undefined,
        InstructionGroup::Int,
        InstructionGroup::Iret,
        InstructionGroup::Privileged,
    ] {
        assert!(!group.is_terminator());
    }
}

#[test]
fn verbosity_grows_with_the_number_of_requests() {
    assert_eq!(Verbosity::from_count(0), Verbosity::Error);
    assert_eq!(Verbosity::from_count(1), Verbosity::Warn);
    assert_eq!(Verbosity::from_count(2), Verbosity::Info);
    assert_eq!(Verbosity::from_count(3), Verbosity::Debug);
    assert_eq!(Verbosity::from_count(4), Verbosity::Trace);
    assert_eq!(Verbosity::from_count(5), Verbosity::Error);
    assert_eq!(Verbosity::from_count(255), Verbosity::Error);
}

#[test]
fn errors_say_what_went_wrong() {
    assert_eq!(GenericError::new("boom").to_string(), "boom'");
    assert_eq!(GenericError::new("").to_string(), "'");
    assert_eq!(InvalidFormatError::new("COFF").to_string(), "Unknown/unsupported format: COFF'");
    assert_eq!(InvalidFormatError::new("").to_string(), "Unknown/unsupported format: '");
}

#[test]
fn workers_share_a_section_in_equal_chunks() {
    assert_eq!(chunk_size(10, 4), 2);
    assert_eq!(chunk_size(3, 4), 1);
    assert_eq!(chunk_size(0, 4), 1);
    assert_eq!(chunk_size(100, 1), 100);
    assert_eq!(chunk_size(1000, 255), 3);
    assert_eq!(chunk_size(10, 0), 10);
    assert_eq!(chunk_size(0, 0), 1);

    assert_eq!(worker_cursors(10, 4), vec![0, 2, 4, 6, 8]);
    assert_eq!(worker_cursors(4, 4), vec![0, 1, 2, 3]);
    assert_eq!(worker_cursors(3, 4), vec![0, 1, 2]);
    assert_eq!(worker_cursors(7, 2), vec![0, 3, 6]);
    assert_eq!(worker_cursors(5, 1), vec![0]);
    assert_eq!(worker_cursors(5, 0), vec![0]);
    assert_eq!(worker_cursors(0, 4), Vec::<usize>::new());
    assert_eq!(worker_cursors(0, 0), Vec::<usize>::new());
}

#[test]
fn workers_run_in_batches() {
    let none: Vec<Vec<usize>> = Vec::new();
    assert_eq!(worker_batches(10, 4), vec![vec![0, 2, 4, 6], vec![8]]);
    assert_eq!(worker_batches(8, 4), vec![vec![0, 2, 4, 6]]);
    assert_eq!(worker_batches(7, 2), vec![vec![0, 3], vec![6]]);
    assert_eq!(worker_batches(3, 1), vec![vec![0]]);
    assert_eq!(worker_batches(3, 0), vec![vec![0]]);
    assert_eq!(worker_batches(3, 8), vec![vec![0, 1, 2]]);
    assert_eq!(worker_batches(0, 4), none);
    for len in [1usize, 2, 9, 100, 1000] {
        for workers in [0u8, 1, 3, 4, 255] {
            let batches = worker_batches(len, workers);
            assert_eq!(batches.concat(), worker_cursors(len, workers));
            let size = std::cmp::max(workers as usize, 1);
            for (i, batch) in batches.iter().enumerate() {
                assert!(!batch.is_empty() && batch.len() <= size);
                assert!(i + 1 == batches.len() || batch.len() == size);
            }
        }
    }
}

#[test]
fn the_chunks_cover_a_section_without_overlap() {
    for len in [1usize, 2, 3, 7, 16, 100, 257] {
        for workers in [0u8, 1, 2, 3, 4, 16, 255] {
            let chunk = chunk_size(len, workers);
            let cursors = worker_cursors(len, workers);
            let mut next = 0;
            for cursor in cursors {
                assert_eq!(cursor, next);
                next = cursor + chunk;
            }
            assert!(next >= len && next < len + chunk);
        }
    }
}

#[test]
fn the_last_group_that_matters_is_the_group_of_an_instruction() {
    assert_eq!(group_of(&vec![]), InstructionGroup::Undefined);
    assert_eq!(group_of(&vec![0]), InstructionGroup::Undefined);
    assert_eq!(group_of(&vec![1]), InstructionGroup::Jump);
    assert_eq!(group_of(&vec![2]), InstructionGroup::Call);
    assert_eq!(group_of(&vec![3]), InstructionGroup::Ret);
    assert_eq!(group_of(&vec![4]), InstructionGroup::Int);
    assert_eq!(group_of(&vec![5]), InstructionGroup::Iret);
    assert_eq!(group_of(&vec![6]), InstructionGroup::Privileged);
    assert_eq!(group_of(&vec![7]), InstructionGroup::Undefined);
    assert_eq!(group_of(&vec![3, 7]), InstructionGroup::Ret);
    assert_eq!(group_of(&vec![1, 3]), InstructionGroup::Ret);
    assert_eq!(group_of(&vec![3, 1]), InstructionGroup::Jump);
    assert_eq!(group_of(&vec![145, 2, 147]), InstructionGroup::Call);
    assert_eq!(group_of(&vec![128, 200, 255]), InstructionGroup::Undefined);
}

fn decoded(address: u64, bytes: &[u8], mnemonic: &str, operands: &str, groups: &[u8]) -> DecodedInsn {
    DecodedInsn {
        address,
        bytes: bytes.to_vec(),
        mnemonic: Some(mnemonic.to_string()),
        operands: Some(operands.to_string()),
        groups: groups.to_vec(),
    }
}

#[test]
fn reports_of_capstone_become_instructions() {
    let mov = instruction_of(&decoded(0x1000, &[0x48, 0x89, 0xc8], "mov", "rax, rcx", &[]));
    assert_eq!(
        mov,
        Instruction {
            size: 3,
            raw: vec![0x48, 0x89, 0xc8],
            address: 0x1000,
            group: InstructionGroup::Undefined,
            mnemonic: "mov".to_string(),
            operands: Some("rax, rcx".to_string()),
        }
    );
    // operands that are an empty text are no operands
    let ret = instruction_of(&decoded(0x1003, &[0xc3], "ret", "", &[3, 145]));
    assert_eq!(ret.operands, None);
    assert_eq!(ret.group, InstructionGroup::Ret);
    assert_eq!(ret.text(false), "ret");
    let bare = instruction_of(&DecodedInsn {
        address: 7,
        bytes: vec![],
        mnemonic: None,
        operands: None,
        groups: vec![],
    });
    assert_eq!((bare.size, bare.mnemonic.as_str(), bare.operands), (0, "", None));
}

#[test]
fn reports_that_lie_back_to_back_in_the_code_are_a_decoding() {
    let code = vec![0x48, 0x89, 0xc8, 0xc3, 0x90];
    let reports = vec![
        decoded(0x1000, &[0x48, 0x89, 0xc8], "mov", "rax, rcx", &[]),
        decoded(0x1003, &[0xc3], "ret", "", &[3]),
    ];
    let insns = instructions_of(&reports, &code, 0x1000).unwrap();
    assert_eq!(insns.len(), 2);
    assert_eq!(insns[1].address, 0x1003);
    assert_eq!(insns[1].group, InstructionGroup::Ret);
    // a decoding may start behind the start of the code and end before its end
    let late = vec![decoded(0x1003, &[0xc3], "ret", "", &[3])];
    assert_eq!(instructions_of(&late, &code, 0x1000).unwrap().len(), 1);
    assert_eq!(instructions_of(&Vec::new(), &code, 0x1000), Some(Vec::new()));
    // at the very end of the address space
    let last = vec![decoded(u64::MAX, &[0xc3], "ret", "", &[3])];
    assert_eq!(instructions_of(&last, &vec![0x90, 0xc3], u64::MAX - 1).unwrap().len(), 1);
}

#[test]
fn reports_that_do_not_fit_the_code_are_no_decoding() {
    let code = vec![0x48, 0x89, 0xc8, 0xc3, 0x90];
    let mov = || decoded(0x1000, &[0x48, 0x89, 0xc8], "mov", "rax, rcx", &[]);
    let check = |reports: Vec<DecodedInsn>| instructions_of(&reports, &code, 0x1000);
    // a gap, an overlap, the wrong order
    assert_eq!(check(vec![mov(), decoded(0x1004, &[0x90], "nop", "", &[])]), None);
    assert_eq!(check(vec![mov(), decoded(0x1002, &[0xc8], "x", "", &[])]), None);
    assert_eq!(check(vec![decoded(0x1003, &[0xc3], "ret", "", &[3]), mov()]), None);
    // other bytes than those of the code
    assert_eq!(check(vec![decoded(0x1000, &[0x48, 0x89, 0xc9], "mov", "", &[])]), None);
    // before the code, behind the code, over the end of the code
    assert_eq!(check(vec![decoded(0xfff, &[0x48], "x", "", &[])]), None);
    assert_eq!(check(vec![decoded(0x1005, &[0x90], "x", "", &[])]), None);
    assert_eq!(check(vec![decoded(0x1004, &[0x90, 0x90], "x", "", &[])]), None);
    assert_eq!(check(vec![decoded(u64::MAX, &[0x90], "x", "", &[])]), None);
    // no bytes at all
    assert_eq!(check(vec![decoded(0x1000, &[], "x", "", &[])]), None);
}

#[test]
fn capstone_decodes_x64() {
    let engine = CapstoneDisassembler::new(&X64).ok().unwrap();
    assert!(matches!(engine.id(), DisassemblyEngineType::Capstone));
    assert!(engine.name().starts_with("Capstone-Engine("));
    assert!(engine.name().ends_with(')'));
    let insns = engine.disassemble(&vec![0x48, 0x89, 0xc8, 0xc3], 0x1000).unwrap();
    assert_eq!(insns.len(), 2);
    assert_eq!(insns[0].text(false), "mov rax, rcx");
    assert_eq!(insns[0].group, InstructionGroup::Undefined);
    assert_eq!((insns[0].address, insns[0].size), (0x1000, 3));
    assert_eq!(insns[1].text(false), "ret");
    assert_eq!(insns[1].group, InstructionGroup::Ret);
    assert_eq!((insns[1].address, insns[1].size), (0x1003, 1));
    assert_eq!(insns[1].raw, vec![0xc3]);
    // what capstone decodes before bytes that it cannot decode
    let insns = engine.disassemble(&vec![0x90, 0xc8, 0xc3], 0).unwrap();
    assert_eq!(insns.len(), 1);
    // nothing decodes
    assert!(engine.disassemble(&vec![0xc8, 0xc3], 0).is_none());
    assert!(engine.disassemble(&Vec::new(), 0).is_none());
}

#[test]
fn capstone_tells_the_groups_apart() {
    let engine = CapstoneDisassembler::new(&X64).ok().unwrap();
    let group = |code: &[u8]| engine.disassemble(&code.to_vec(), 0).unwrap()[0].group;
    assert_eq!(group(&[0xc3]), InstructionGroup::Ret);
    assert_eq!(group(&[0xc2, 0x08, 0x00]), InstructionGroup::Ret);
    assert_eq!(group(&[0xe8, 0, 0, 0, 0]), InstructionGroup::Call);
    assert_eq!(group(&[0xff, 0xd0]), InstructionGroup::Call);
    assert_eq!(group(&[0xff, 0xe0]), InstructionGroup::Jump);
    assert_eq!(group(&[0xcc]), InstructionGroup::Int);
    assert_eq!(group(&[0x90]), InstructionGroup::Undefined);
    assert_eq!(group(&[0x58]), InstructionGroup::Undefined);
}

#[test]
fn capstone_decodes_the_other_cpus() {
    let x86 = CapstoneDisassembler::new(&X86).ok().unwrap();
    let insns = x86.disassemble(&vec![0x89, 0xc8, 0xc3], 0x0804_8000).unwrap();
    assert_eq!(insns[0].text(false), "mov eax, ecx");
    assert_eq!(insns[1].group, InstructionGroup::Ret);
    // the same bytes mean something else to a 64-bit cpu
    let inc = x86.disassemble(&vec![0x48], 0).unwrap();
    assert_eq!(inc[0].text(false), "dec eax");

    let arm64 = CapstoneDisassembler::new(&Arm64).ok().unwrap();
    let insns = arm64.disassemble(&vec![0x1f, 0x20, 0x03, 0xd5, 0xc0, 0x03, 0x5f, 0xd6], 0x40_0000).unwrap();
    assert_eq!(insns.len(), 2);
    assert_eq!(insns[0].text(false), "nop");
    assert_eq!(insns[1].text(false), "ret");
    assert_eq!(insns[1].group, InstructionGroup::Ret);
    assert_eq!((insns[1].address, insns[1].size), (0x40_0004, 4));
    assert!(arm64.disassemble(&vec![0xc0, 0x03, 0x5f], 0).is_none());

    let arm = CapstoneDisassembler::new(&Arm).ok().unwrap();
    let insns = arm.disassemble(&vec![0x1e, 0xff, 0x2f, 0xe1], 0x8000).unwrap();
    assert_eq!(insns[0].text(false), "bx lr");
    assert_eq!(insns[0].size, 4);
}

#[test]
fn an_engine_is_built_for_a_type_and_a_cpu() {
    let engine = DisassemblyEngine::new(&DisassemblyEngineType::Capstone, &X64).ok().unwrap();
    assert!(engine.to_string().starts_with("Engine(Capstone-Engine("));
    assert!(engine.to_string().ends_with("))"));
    assert_eq!(engine.to_string(), engine_label(engine.disassembler.name()));
    assert!(engine.disassembler.disassemble(&vec![0xc3], 0).is_some());
    assert_eq!(
        DisassemblyEngine::new(&DisassemblyEngineType::Invalid, &X64).err(),
        Some(Error::GenericError("Invalid disassembly engine"))
    );
    assert_eq!(capstone_name(5, 0), "Capstone-Engine(5.0)");
    assert_eq!(capstone_name(4, 12), "Capstone-Engine(4.12)");
    assert_eq!(capstone_name(0, u32::MAX), "Capstone-Engine(0.4294967295)");
    assert_eq!(engine_label("x".to_string()), "Engine(x)");
    assert_eq!(engine_label(String::new()), "Engine()");
}

#[test]
fn instructions_are_written_with_their_operands() {
    assert_eq!(join_text("mov".to_string(), Some("rax, rcx".to_string())), "mov rax, rcx");
    assert_eq!(join_text("ret".to_string(), None), "ret");
    assert_eq!(join_text("ret".to_string(), Some(String::new())), "ret ");
    assert_eq!(join_text(String::new(), None), "");
}

#[test]
fn a_gadget_holds_the_bytes_of_its_instructions() {
    let insn = |address, raw: &[u8], mnemonic: &str, operands: Option<&str>| Instruction {
        size: raw.len(),
        raw: raw.to_vec(),
        address,
        group: InstructionGroup::Undefined,
        mnemonic: mnemonic.to_string(),
        operands: operands.map(|o| o.to_string()),
    };
    let insns = vec![
        insn(0x1000, &[0x48, 0x89, 0xc8], "mov", Some("rax, rcx")),
        insn(0x1003, &[0x5d], "pop", Some("rbp")),
        insn(0x1004, &[0xc3], "ret", None),
    ];
    let g = Gadget::new(insns.clone());
    assert_eq!(g.address, 0x1000);
    assert_eq!(g.size, 5);
    assert_eq!(g.raw, vec![0x48, 0x89, 0xc8, 0x5d, 0xc3]);
    assert_eq!(g.insns, insns);
    assert_eq!(g.text(false), "mov rax, rcx ; pop rbp ; ret ;");
    let painted = g.text(true);
    assert!(painted.contains("mov") && painted.contains("rax, rcx") && painted.contains("ret"));
    let one = Gadget::new(vec![insn(9, &[0xc3], "ret", None)]);
    assert_eq!((one.address, one.size, one.text(false).as_str()), (9, 1, "ret ;"));
}

#[test]
fn things_are_described_in_one_line() {
    let insn = Instruction {
        size: 3,
        raw: vec![0x48, 0x89, 0xc8],
        address: 0x1000,
        group: InstructionGroup::Undefined,
        mnemonic: "mov".to_string(),
        operands: Some("rax, rcx".to_string()),
    };
    assert_eq!(
        insn.to_string(),
        "Instruction(addr=0x1000, size=3, text='mov rax, rcx', raw=[72, 137, 200], group=Undefined)"
    );
    let ret = Instruction {
        size: 1,
        raw: vec![0xc3],
        address: 0,
        group: InstructionGroup::Ret,
        mnemonic: "ret".to_string(),
        operands: None,
    };
    assert_eq!(ret.to_string(), "Instruction(addr=0x0, size=1, text='ret', raw=[195], group=Ret)");
    let bare = Instruction { size: 0, raw: vec![], ..ret.clone() };
    assert_eq!(bare.to_string(), "Instruction(addr=0x0, size=0, text='ret', raw=[], group=Ret)");
    let g = Gadget::new(vec![insn, Instruction { address: 0x1003, ..ret }]);
    assert_eq!(g.to_string(), "Gadget(addr=0x1000, text='mov rax, rcx ; ret ;')");

    let s = session(vec![0xc3]).profile_type(RopProfileStrategy::Complete);
    assert_eq!(s.info.to_string(), "Info(X64, ELF, Entry=0x0)");
    assert_eq!(
        s.to_string(),
        "Session(File='memory', Info(X64, ELF, Entry=0x0), Profile=Complete, GadgetTypes=[Ret])"
    );
    assert_eq!(s.info.format.describe(), "ExecutableFileFormat { format: \"ELF\", executable_sections: 1, cpu_type: X64, entry_point: 0 }");
    assert_eq!(X86.describe(), "Cpu { cpu_type: X86, name: \"X86\", ptrsize: 4, insn_step: 1 }");
    assert_eq!(Arm64.describe(), "Cpu { cpu_type: ARM64, name: \"ARM64\", ptrsize: 8, insn_step: 4 }");
    assert_eq!(
        cpu_of(CpuType::ARM).unwrap().describe(),
        "Cpu { cpu_type: ARM, name: \"ARM\", ptrsize: 4, insn_step: 4 }"
    );
    let text = Section {
        permission: Permission::new(true, false, true),
        ..Section::new(0x40_1000, 0x40_3000).name(".text")
    };
    assert_eq!(
        text.to_string(),
        "Section(name='Some(\".text\")', start=0x401000, sz=0x2000, permission=Permission(READABLE | EXECUTABLE))"
    );
    assert_eq!(
        Section::default().to_string(),
        "Section(name='None', start=0x0, sz=0x0, permission=Permission(0x0))"
    );
    assert_eq!(Permission::new(true, true, true).to_string(), "Permission(READABLE | WRITABLE | EXECUTABLE)");
    assert_eq!(Permission::new(true, false, false).to_string(), "Permission(READABLE)");
    assert_eq!(Permission::new(false, true, true).to_string(), "Permission(WRITABLE | EXECUTABLE)");
    assert_eq!(Permission::new(false, false, true).to_string(), "Permission(EXECUTABLE)");
    assert_eq!(Permission::new(true, true, false).to_string(), "Permission(READABLE | WRITABLE)");
    let engine = CapstoneDisassembler::new(&X64).ok().unwrap();
    assert_eq!(engine.to_string(), disassembler_label(engine.name()));
    assert_eq!(disassembler_label("x".to_string()), "Disassembler(x)");
    assert_eq!(format_byte_list(&vec![0, 9, 10, 255]), "[0, 9, 10, 255]");
}

#[test]
fn a_gadget_is_not_built_of_nothing() {
    let insn = |size, raw: &[u8]| Instruction {
        size,
        raw: raw.to_vec(),
        address: 0x1000,
        group: InstructionGroup::Ret,
        mnemonic: "ret".to_string(),
        operands: None,
    };
    assert!(Gadget::try_new(Vec::new()).is_err());
    assert!(Gadget::try_new(vec![insn(2, &[0xc3])]).is_err());
    assert!(Gadget::try_new(vec![insn(1, &[0xc3]), insn(0, &[0xc3])]).is_err());
    let g = Gadget::try_new(vec![insn(1, &[0xc3])]).ok().unwrap();
    assert_eq!((g.address, g.size), (0x1000, 1));
    assert_eq!(g, Gadget::new(vec![insn(1, &[0xc3])]));
    // an instruction without bytes states the number of its bytes too
    let empty = Gadget::try_new(vec![insn(0, &[])]).ok().unwrap();
    assert_eq!((empty.size, empty.raw.len()), (0, 0));
}

#[test]
fn session_builders_change_one_thing() {
    let s = session(vec![0xc3])
        .nb_thread(9)
        .output(RopGadgetOutput::File("out.txt".to_string()))
        .unique_only(true)
        .use_color(true)
        .verbosity(Verbosity::Debug)
        .gadget_type(InstructionGroup::Call)
        .profile_type(RopProfileStrategy::Complete)
        .max_gadget_length(3)
        .max_gadget_size(12);
    assert_eq!(s.nb_thread, 9);
    assert!(matches!(&s.output, RopGadgetOutput::File(path) if path == "out.txt"));
    assert!(s.unique_only && s.use_color);
    assert_eq!(s.verbosity, Verbosity::Debug);
    assert_eq!(s.gadget_type, InstructionGroup::Call);
    assert_eq!(s.profile_type, RopProfileStrategy::Complete);
    assert_eq!((s.max_gadget_length, s.max_gadget_size), (3, 12));
    assert_eq!(s.filepath(), "memory");
    assert!(s.gadgets.is_empty());
    let back = s.unique_only(false).use_color(false).nb_thread(1);
    assert!(!back.unique_only && !back.use_color);
    assert_eq!(back.nb_thread, 1);
    assert_eq!(back.gadget_type, InstructionGroup::Call);
}

#[test]
fn the_search_adds_to_the_gadgets_of_the_session() {
    let mut s = session(vec![0x48, 0x89, 0xc8, 0xc3]);
    assert_eq!(find_gadgets(&mut s), Ok(()));
    let found: Vec<u64> = s.gadgets.iter().map(|g| g.address).collect();
    // in the order in which the worker found them
    assert_eq!(found, vec![0x1003, 0x1001, 0x1000]);
    assert_eq!(find_gadgets(&mut s), Ok(()));
    let found: Vec<u64> = s.gadgets.iter().map(|g| g.address).collect();
    assert_eq!(found, vec![0x1003, 0x1001, 0x1000, 0x1003, 0x1001, 0x1000]);
    assert_eq!(s.nb_thread, 4);
    let arranged = collect_all_gadgets(s.unique_only(true)).unwrap();
    let found: Vec<u64> = arranged.iter().map(|g| g.address).collect();
    assert_eq!(found, vec![0x1000, 0x1001, 0x1003]);
}

#[test]
fn a_worker_searches_one_chunk_of_one_section() {
    let s = session(vec![0x48, 0x89, 0xc8, 0xc3]);
    let addresses = |section, cursor| -> Vec<u64> {
        thread_worker(&s, section, cursor).iter().map(|g| g.address).collect()
    };
    assert_eq!(addresses(0, 3), vec![0x1003, 0x1001, 0x1000]);
    assert!(addresses(0, 0).is_empty());
    assert!(addresses(0, 2).is_empty());
    assert!(addresses(0, 4).is_empty());
    assert!(addresses(1, 3).is_empty());
    assert!(addresses(usize::MAX, 3).is_empty());
    let one = session(vec![0x48, 0x89, 0xc8, 0xc3]).nb_thread(1);
    assert_eq!(thread_worker(&one, 0, 0).len(), 3);
}

#[test]
fn a_worker_without_an_engine_finds_nothing() {
    let mut s = session(vec![0xc3]);
    s.engine_type = DisassemblyEngineType::Invalid;
    assert!(thread_worker(&s, 0, 0).is_empty());
    assert_eq!(collect_all_gadgets(s), Ok(Vec::new()));
}

#[test]
fn reports_are_checked_before_they_become_instructions() {
    let code = vec![0x48, 0x89, 0xc8, 0xc3];
    let mov = || decoded(0x1000, &[0x48, 0x89, 0xc8], "mov", "rax, rcx", &[]);
    let ret = || decoded(0x1003, &[0xc3], "ret", "", &[3]);
    // no answer, and an answer without any instruction
    assert_eq!(checked_decoding(&None, &code, 0x1000), None);
    assert_eq!(checked_decoding(&Some(Vec::new()), &code, 0x1000), None);
    // instructions that lie in the code
    let insns = checked_decoding(&Some(vec![mov(), ret()]), &code, 0x1000).unwrap();
    assert_eq!(insns.len(), 2);
    assert_eq!((insns[0].address, insns[0].size, insns[0].group), (0x1000, 3, InstructionGroup::Undefined));
    assert_eq!((insns[1].address, insns[1].size, insns[1].group), (0x1003, 1, InstructionGroup::Ret));
    assert_eq!(insns[0].raw, vec![0x48, 0x89, 0xc8]);
    // instructions that do not
    assert_eq!(checked_decoding(&Some(vec![ret(), mov()]), &code, 0x1000), None);
    assert_eq!(checked_decoding(&Some(vec![mov(), ret()]), &code, 0x1001), None);
}

#[test]
fn the_texts_of_instructions_are_joined_to_the_text_of_a_gadget() {
    let texts = |parts: &[&str]| parts.iter().map(|t| t.to_string()).collect::<Vec<String>>();
    assert_eq!(join_insns(&texts(&[])), "");
    assert_eq!(join_insns(&texts(&["ret"])), "ret ;");
    assert_eq!(join_insns(&texts(&["pop rbp", "ret"])), "pop rbp ; ret ;");
    assert_eq!(join_insns(&texts(&["a", "", "c"])), "a ;  ; c ;");
    // whatever the parts were painted with stays as it is
    assert_eq!(
        join_insns(&texts(&["\u{1b}[36mpop\u{1b}[0m \u{1b}[1mrbp\u{1b}[0m", "\u{1b}[36mret\u{1b}[0m"])),
        "\u{1b}[36mpop\u{1b}[0m \u{1b}[1mrbp\u{1b}[0m ; \u{1b}[36mret\u{1b}[0m ;"
    );
}

#[test]
fn a_painted_gadget_is_joined_as_a_plain_one() {
    let insn = |mnemonic: &str, operands: Option<&str>| Instruction {
        size: 1,
        raw: vec![0x90],
        address: 0x1000,
        group: InstructionGroup::Undefined,
        mnemonic: mnemonic.to_string(),
        operands: operands.map(|o| o.to_string()),
    };
    let insns = vec![insn("pop", Some("rbp")), insn("ret", None)];
    let g = Gadget::new(insns.clone());
    let parts: Vec<String> = insns.iter().map(|i| i.text(true)).collect();
    assert_eq!(g.text(true), join_insns(&parts));
    let plain: Vec<String> = insns.iter().map(|i| i.text(false)).collect();
    assert_eq!(g.text(false), join_insns(&plain));
    // an instruction without operands has no space behind its mnemonic
    assert!(!insns[1].text(true).contains(' '));
    assert!(insns[0].text(true).contains(' '));
}
