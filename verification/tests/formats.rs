use ropgadget_rs::cpu::CpuType;
use ropgadget_rs::error::Error;
use ropgadget_rs::format::elf::Elf;
use ropgadget_rs::format::pe::{Pe, PeParser, SectionIterator};
use ropgadget_rs::format::{
    keep_executable, name_of, read_bytes, read_u16_le, read_u32_le, read_u64_le,
    ExecutableFileFormat, FileFormat,
};
use ropgadget_rs::section::{Permission, Section};
use ropgadget_rs::session::{ExecutableDetails, Session};

const CODE: u32 = 0x6000_0020;
const DATA: u32 = 0xc000_0040;

struct PeSection {
    name: [u8; 8],
    address: u32,
    size: u32,
    characteristics: u32,
    data: Vec<u8>,
}

fn text(data: Vec<u8>) -> PeSection {
    PeSection { name: *b".text\0\0\0", address: 0x1000, size: 0x2000, characteristics: CODE, data }
}

/// A PE image for the machine given that holds the sections given.
fn pe(machine: u16, image_base: u64, entry: u32, sections: &[PeSection]) -> Vec<u8> {
    let wide = machine != 0x014c;
    let optional: usize = if wide { 0xf0 } else { 0xe0 };
    let mut image = vec![0u8; 0x40 + 24 + optional];
    image[0] = b'M';
    image[1] = b'Z';
    image[0x3c..0x40].copy_from_slice(&0x40u32.to_le_bytes());
    image[0x40..0x44].copy_from_slice(b"PE\0\0");
    image[0x44..0x46].copy_from_slice(&machine.to_le_bytes());
    image[0x46..0x48].copy_from_slice(&(sections.len() as u16).to_le_bytes());
    image[0x54..0x56].copy_from_slice(&(optional as u16).to_le_bytes());
    let opt = 0x40 + 24;
    image[opt + 16..opt + 20].copy_from_slice(&entry.to_le_bytes());
    if wide {
        image[opt + 24..opt + 32].copy_from_slice(&image_base.to_le_bytes());
    } else {
        image[opt + 28..opt + 32].copy_from_slice(&(image_base as u32).to_le_bytes());
    }
    let mut offset = (image.len() + 40 * sections.len()) as u32;
    for s in sections {
        let mut header = vec![0u8; 40];
        header[0..8].copy_from_slice(&s.name);
        header[8..12].copy_from_slice(&s.size.to_le_bytes());
        header[12..16].copy_from_slice(&s.address.to_le_bytes());
        header[16..20].copy_from_slice(&(s.data.len() as u32).to_le_bytes());
        header[20..24].copy_from_slice(&offset.to_le_bytes());
        header[36..40].copy_from_slice(&s.characteristics.to_le_bytes());
        image.extend_from_slice(&header);
        offset += s.data.len() as u32;
    }
    for s in sections {
        image.extend_from_slice(&s.data);
    }
    image
}

/// An ELF object of the class and machine given that holds the sections given, each as its
/// name bytes, its flags, its address and its bytes.
fn elf(wide: bool, machine: u16, entry: u64, sections: &[([u8; 4], u64, u64, Vec<u8>)]) -> Vec<u8> {
    let header_size = if wide { 64 } else { 52 };
    let entry_size = if wide { 64 } else { 40 };
    let mut image = vec![0u8; header_size];
    image[0..4].copy_from_slice(&[0x7f, b'E', b'L', b'F']);
    image[4] = if wide { 2 } else { 1 };
    image[5] = 1;
    image[18..20].copy_from_slice(&machine.to_le_bytes());
    if wide {
        image[24..32].copy_from_slice(&entry.to_le_bytes());
        image[40..48].copy_from_slice(&(header_size as u64).to_le_bytes());
        image[60..62].copy_from_slice(&(sections.len() as u16).to_le_bytes());
    } else {
        image[24..28].copy_from_slice(&(entry as u32).to_le_bytes());
        image[32..36].copy_from_slice(&(header_size as u32).to_le_bytes());
        image[48..50].copy_from_slice(&(sections.len() as u16).to_le_bytes());
    }
    let mut offset = (header_size + entry_size * sections.len()) as u64;
    for (name, flags, address, data) in sections {
        let mut header = vec![0u8; entry_size];
        header[0..4].copy_from_slice(name);
        if wide {
            header[0x08..0x10].copy_from_slice(&flags.to_le_bytes());
            header[0x10..0x18].copy_from_slice(&address.to_le_bytes());
            header[0x18..0x20].copy_from_slice(&offset.to_le_bytes());
            header[0x20..0x28].copy_from_slice(&(data.len() as u64).to_le_bytes());
        } else {
            header[0x08..0x0c].copy_from_slice(&(*flags as u32).to_le_bytes());
            header[0x0c..0x10].copy_from_slice(&(*address as u32).to_le_bytes());
            header[0x10..0x14].copy_from_slice(&(offset as u32).to_le_bytes());
            header[0x14..0x18].copy_from_slice(&(data.len() as u32).to_le_bytes());
        }
        image.extend_from_slice(&header);
        offset += data.len() as u64;
    }
    for (_, _, _, data) in sections {
        image.extend_from_slice(data);
    }
    image
}

#[test]
fn little_endian_numbers_are_read_where_they_fit() {
    let bytes = [0x01, 0x02, 0x03, 0x04, 0x05, 0x06, 0x07, 0x08, 0xff];
    assert_eq!(read_u16_le(&bytes, 0), Some(0x0201));
    assert_eq!(read_u16_le(&bytes, 7), Some(0xff08));
    assert_eq!(read_u16_le(&bytes, 8), None);
    assert_eq!(read_u32_le(&bytes, 1), Some(0x0504_0302));
    assert_eq!(read_u32_le(&bytes, 5), Some(0xff08_0706));
    assert_eq!(read_u32_le(&bytes, 6), None);
    assert_eq!(read_u64_le(&bytes, 0), Some(0x0807_0605_0403_0201));
    assert_eq!(read_u64_le(&bytes, 1), Some(0xff08_0706_0504_0302));
    assert_eq!(read_u64_le(&bytes, 2), None);
    assert_eq!(read_u64_le(&[0xff; 8], 0), Some(u64::MAX));
    assert_eq!(read_u32_le(&bytes, usize::MAX), None);
    assert_eq!(read_u16_le(&[], 0), None);
}

#[test]
fn bytes_are_copied_where_they_fit() {
    let bytes = [1u8, 2, 3, 4];
    assert_eq!(read_bytes(&bytes, 1, 2), Some(vec![2, 3]));
    assert_eq!(read_bytes(&bytes, 0, 4), Some(vec![1, 2, 3, 4]));
    assert_eq!(read_bytes(&bytes, 4, 0), Some(vec![]));
    assert_eq!(read_bytes(&bytes, 3, 2), None);
    assert_eq!(read_bytes(&bytes, 5, 0), None);
    assert_eq!(read_bytes(&bytes, usize::MAX, 2), None);
    assert_eq!(read_bytes(&bytes, 2, usize::MAX), None);
}

#[test]
fn names_are_the_text_that_the_bytes_spell() {
    assert_eq!(name_of(b".text".to_vec()), Some(".text".to_string()));
    assert_eq!(name_of(b".text\0\0\0".to_vec()), Some(".text\0\0\0".to_string()));
    assert_eq!(name_of(vec![0xc3, 0xa9]), Some("é".to_string()));
    assert_eq!(name_of(Vec::new()), Some(String::new()));
    assert_eq!(name_of(vec![0x2e, 0xff]), None);
    assert_eq!(name_of(vec![0xc3]), None);
}

#[test]
fn pe_headers_are_read() {
    let image = pe(0x8664, 0x40_0000, 0x1234, &[text(vec![0xc3; 16])]);
    let pe = Pe::new(&image).unwrap();
    assert_eq!(pe.cpu_type(), CpuType::X64);
    assert_eq!(pe.entry_point, 0x1234);
    assert_eq!(pe.entry_point(), 0x1234);
    assert_eq!(pe.format(), "PE");
    assert_eq!(pe.sections.len(), 1);
    let section = &pe.executable_sections()[0];
    assert_eq!(section.start_address, 0x40_1000);
    assert_eq!(section.end_address, 0x40_3000);
    assert_eq!(section.name, Some(".text\0\0\0".to_string()));
    assert_eq!(section.permission, Permission::new(true, false, true));
    assert_eq!(section.data, vec![0xc3; 16]);
}

#[test]
fn pe_machines_map_to_cpus() {
    for (machine, cpu) in
        [(0x014c, CpuType::X86), (0x8664, CpuType::X64), (0xaa64, CpuType::ARM64)]
    {
        let image = pe(machine, 0x1_0000, 0, &[]);
        assert_eq!(Pe::new(&image).unwrap().cpu_type(), cpu);
    }
    for machine in [0x01c0, 0x01c4, 0x0200, 0] {
        let image = pe(machine, 0x1_0000, 0, &[]);
        assert_eq!(Pe::new(&image).err(), Some(Error::UnsupportedCpuError));
    }
}

#[test]
fn pe_image_base_is_read_where_the_machine_puts_it() {
    let narrow = pe(0x014c, 0x1000_0000, 0, &[text(vec![0x90])]);
    assert_eq!(Pe::new(&narrow).unwrap().sections[0].start_address, 0x1000_1000);
    let wide = pe(0x8664, 0x7000_0000, 0, &[text(vec![0x90])]);
    assert_eq!(Pe::new(&wide).unwrap().sections[0].start_address, 0x7000_1000);
    let high = pe(0x8664, 0x1_4000_0000, 0, &[text(vec![0x90])]);
    assert_eq!(Pe::new(&high).unwrap().sections[0].start_address, 0x1_4000_1000);
    // a section that would pass the end of the address space ends the table
    let last = pe(0x8664, u64::MAX - 0x3000, 0, &[text(vec![0x90])]);
    let section = &Pe::new(&last).unwrap().sections[0];
    assert_eq!((section.start_address, section.end_address), (u64::MAX - 0x2000, u64::MAX));
    let wrapping = pe(0x8664, u64::MAX - 0x2fff, 0, &[text(vec![0x90])]);
    assert!(Pe::new(&wrapping).unwrap().sections.is_empty());
}

#[test]
fn pe_sections_that_cannot_be_executed_are_left_out() {
    let sections = [
        PeSection { name: *b".data\0\0\0", address: 0x1000, size: 4, characteristics: DATA, data: vec![1, 2] },
        text(vec![0xc3]),
        PeSection { name: *b".rdata\0\0", address: 0x5000, size: 4, characteristics: 0x4000_0040, data: vec![3] },
        PeSection { name: *b".code\0\0\0", address: 0x6000, size: 4, characteristics: 0x2000_0000, data: vec![4] },
    ];
    let image = pe(0x8664, 0x40_0000, 0, &sections);
    let parser = PeParser::parse(&image).ok().unwrap();
    let all = parser.sections().unwrap();
    assert_eq!(all.len(), 4);
    assert_eq!(all[0].permission, Permission::new(true, true, false));
    assert_eq!(all[0].data, vec![1, 2]);
    assert_eq!(all[2].permission, Permission::new(true, false, false));
    assert_eq!(all[3].permission, Permission::new(false, false, true));
    assert_eq!(all[3].start_address, 0x40_6000);
    assert_eq!(all[3].end_address, 0x40_6004);

    let pe = Pe::new(&image).unwrap();
    let names: Vec<_> = pe.sections.iter().map(|s| s.name.clone().unwrap()).collect();
    assert_eq!(names, vec![".text\0\0\0".to_string(), ".code\0\0\0".to_string()]);
}

#[test]
fn pe_headers_are_described_in_one_line() {
    let image = pe(0x8664, 0x40_0000, 0x1234, &[text(vec![0xc3; 16])]);
    let parser = PeParser::parse(&image).ok().unwrap();
    assert_eq!(parser.entry_point, 0x1234);
    assert_eq!(
        parser.to_string(),
        "PeParser [machine=X64, number_of_sections=1, section_table_offset=328, image_base=0x400000, entry_point=0x1234]"
    );
}

#[test]
fn pe_section_iterator_walks_the_table_once() {
    let image = pe(0x8664, 0, 0, &[text(vec![0xc3]), text(vec![0x90, 0xc3])]);
    let parser = PeParser::parse(&image).ok().unwrap();
    let mut walk = SectionIterator::new(&parser);
    assert_eq!(walk.next().unwrap().data, vec![0xc3]);
    assert_eq!(walk.next().unwrap().data, vec![0x90, 0xc3]);
    assert!(walk.next().is_none());
    assert!(walk.next().is_none());
}

#[test]
fn pe_sections_stop_at_the_first_entry_that_cannot_be_read() {
    let image = pe(0x8664, 0, 0, &[text(vec![0xc3]), text(vec![0x90; 8]), text(vec![0xcc])]);
    // the bytes of the second section are cut off, and those of the third with them
    let cut = &image[..image.len() - 2];
    let parser = PeParser::parse(cut).ok().unwrap();
    assert_eq!(parser.sections().unwrap().len(), 1);
    assert_eq!(Pe::new(cut).unwrap().sections.len(), 1);
    // the table itself is cut off
    let headers_only = &image[..0x40 + 24 + 0xf0 + 40 + 20];
    assert_eq!(PeParser::parse(headers_only).ok().unwrap().sections().unwrap().len(), 0);
}

#[test]
fn pe_section_names_that_are_no_text_are_left_out() {
    let odd = PeSection { name: [0xff; 8], ..text(vec![0xc3]) };
    let image = pe(0x8664, 0, 0, &[odd]);
    let pe = Pe::new(&image).unwrap();
    assert_eq!(pe.sections.len(), 1);
    assert_eq!(pe.sections[0].name, None);
}

#[test]
fn pe_addresses_are_added_up_in_64_bits() {
    let huge = PeSection { address: 0xffff_ffff, size: 0xffff_ffff, ..text(vec![0xc3]) };
    let image = pe(0x014c, 0xffff_ffff, 0, &[huge]);
    // the base, the address and the size of a 32-bit image are 32 bits wide each
    let section = &Pe::new(&image).unwrap().sections[0];
    assert_eq!(section.start_address, 0x1_ffff_fffe);
    assert_eq!(section.end_address, 0x2_ffff_fffd);
}

#[test]
fn pe_files_are_rejected_for_what_is_wrong_with_them() {
    let image = pe(0x8664, 0x40_0000, 0, &[text(vec![0xc3])]);
    assert_eq!(Pe::new(&[]).err(), Some(Error::InvalidMagicParsingError));
    assert_eq!(Pe::new(b"M").err(), Some(Error::InvalidMagicParsingError));
    assert_eq!(Pe::new(b"ZM and more").err(), Some(Error::InvalidMagicParsingError));
    assert_eq!(Pe::new(b"MZ").err(), Some(Error::InvalidFileError));
    assert_eq!(Pe::new(&image[..0x3f]).err(), Some(Error::InvalidFileError));
    assert_eq!(Pe::new(&image[..0x40]).err(), Some(Error::InvalidStructureParsingError));
    assert_eq!(Pe::new(&image[..0x43]).err(), Some(Error::InvalidStructureParsingError));
    assert_eq!(Pe::new(&image[..0x44]).err(), Some(Error::InvalidFileError));
    assert_eq!(Pe::new(&image[..0x45]).err(), Some(Error::InvalidFileError));
    // the machine is known, the optional header is cut off before the end of the image base
    assert_eq!(Pe::new(&image[..0x40 + 24 + 31]).err(), Some(Error::InvalidFileError));
    assert!(Pe::new(&image[..0x40 + 24 + 32]).is_ok());

    let mut wrong = image.clone();
    wrong[0x41] = b'Q';
    assert_eq!(Pe::new(&wrong).err(), Some(Error::InvalidStructureParsingError));
    let mut far = image.clone();
    far[0x3c..0x40].copy_from_slice(&0xffff_ff00u32.to_le_bytes());
    assert_eq!(Pe::new(&far).err(), Some(Error::InvalidStructureParsingError));
    let mut unknown = image.clone();
    unknown[0x44..0x46].copy_from_slice(&0x01c4u16.to_le_bytes());
    assert_eq!(Pe::new(&unknown).err(), Some(Error::UnsupportedCpuError));
    // an unknown machine is reported even where the optional header is cut off
    assert_eq!(Pe::new(&unknown[..0x46]).err(), Some(Error::UnsupportedCpuError));
}

#[test]
fn a_narrow_pe_image_needs_as_much_of_the_optional_header() {
    let image = pe(0x014c, 0x40_0000, 0, &[]);
    assert_eq!(Pe::new(&image[..0x40 + 24 + 31]).err(), Some(Error::InvalidFileError));
    assert!(Pe::new(&image[..0x40 + 24 + 32]).is_ok());
}

#[test]
fn elf_headers_are_read() {
    let image = elf(true, 0x3e, 0x40_1000, &[(*b"abcd", 6, 0x40_1000, vec![0x90, 0xc3])]);
    let elf = Elf::new(image).unwrap();
    assert_eq!(elf.cpu_type(), CpuType::X64);
    assert_eq!(elf.entry_point(), 0x40_1000);
    assert_eq!(elf.format(), "ELF");
    let sections = elf.executable_sections();
    assert_eq!(sections.len(), 1);
    assert_eq!(sections[0].start_address, 0x40_1000);
    assert_eq!(sections[0].end_address, 0x40_1002);
    assert_eq!(sections[0].name, Some("abcd".to_string()));
    assert_eq!(sections[0].permission, Permission::new(true, false, true));
    assert_eq!(sections[0].data, vec![0x90, 0xc3]);
}

#[test]
fn narrow_elf_objects_have_a_narrow_section_table() {
    let sections = [
        (*b"\x01\0\0\0", 3, 0x0804_a000, vec![1, 2, 3]),
        (*b"\x07\0\0\0", 6, 0x0804_8000, vec![0x89, 0xc8, 0xc3]),
    ];
    let elf = Elf::new(elf(false, 3, 0x0804_8000, &sections)).unwrap();
    assert_eq!(elf.cpu_type(), CpuType::X86);
    assert_eq!(elf.entry_point(), 0x0804_8000);
    let found = elf.executable_sections();
    assert_eq!(found.len(), 1);
    assert_eq!(found[0].start_address, 0x0804_8000);
    assert_eq!(found[0].end_address, 0x0804_8003);
    assert_eq!(found[0].data, vec![0x89, 0xc8, 0xc3]);
    assert_eq!(found[0].name, Some("\x07\0\0\0".to_string()));
}

#[test]
fn elf_machines_map_to_cpus() {
    let cpu = |wide, machine| Elf::new(elf(wide, machine, 0, &[])).map(|e| e.cpu_type()).ok();
    assert_eq!(cpu(false, 0x03), Some(CpuType::X86));
    assert_eq!(cpu(true, 0x03), Some(CpuType::X86));
    assert_eq!(cpu(true, 0x3e), Some(CpuType::X64));
    assert_eq!(cpu(false, 0x28), Some(CpuType::ARM));
    assert_eq!(cpu(true, 0x28), Some(CpuType::ARM64));
    assert_eq!(cpu(true, 0xb7), Some(CpuType::ARM64));
    for machine in [0, 0x08, 0x2b, 0xf3] {
        let image = elf(true, machine, 0, &[]);
        assert_eq!(Elf::new(image).err(), Some(Error::UnsupportedCpuError));
    }
}

#[test]
fn elf_files_are_rejected_for_what_is_wrong_with_them() {
    let image = elf(true, 0x3e, 0, &[(*b"abcd", 6, 0x1000, vec![0xc3])]);
    assert_eq!(Elf::new(Vec::new()).err(), Some(Error::InvalidMagicParsingError));
    assert_eq!(Elf::new(b"\x7fEL".to_vec()).err(), Some(Error::InvalidMagicParsingError));
    assert_eq!(Elf::new(b"\x7fELG\x02".to_vec()).err(), Some(Error::InvalidMagicParsingError));
    assert_eq!(Elf::new(image[..4].to_vec()).err(), Some(Error::InvalidFileError));
    assert_eq!(Elf::new(image[..19].to_vec()).err(), Some(Error::InvalidFileError));
    assert_eq!(Elf::new(image[..63].to_vec()).err(), Some(Error::InvalidFileError));
    assert!(Elf::new(image[..64].to_vec()).is_ok());
    let mut class = image.clone();
    class[4] = 3;
    assert_eq!(Elf::new(class).err(), Some(Error::InvalidFileError));
    let mut class = image.clone();
    class[4] = 0;
    assert_eq!(Elf::new(class).err(), Some(Error::InvalidFileError));
    let mut machine = image.clone();
    machine[18] = 0x08;
    assert_eq!(Elf::new(machine[..20].to_vec()).err(), Some(Error::UnsupportedCpuError));
    let narrow = elf(false, 3, 0, &[]);
    assert_eq!(Elf::new(narrow[..51].to_vec()).err(), Some(Error::InvalidFileError));
    assert!(Elf::new(narrow).is_ok());
}

#[test]
fn elf_sections_stop_at_the_first_entry_that_cannot_be_read() {
    let sections = [
        (*b"aaaa", 6, 0x1000, vec![0xc3]),
        (*b"bbbb", 6, 0x2000, vec![0x90; 8]),
        (*b"cccc", 6, 0x3000, vec![0xcc]),
    ];
    let image = elf(true, 0x3e, 0, &sections);
    assert_eq!(Elf::new(image.clone()).unwrap().executable_sections().len(), 3);
    let cut = image[..image.len() - 2].to_vec();
    assert_eq!(Elf::new(cut).unwrap().executable_sections().len(), 1);
    // a section that would pass the end of the address space
    let wrap = elf(true, 0x3e, 0, &[(*b"aaaa", 6, u64::MAX, vec![0xc3]), sections[0].clone()]);
    assert_eq!(Elf::new(wrap).unwrap().executable_sections().len(), 0);
    let fits = elf(true, 0x3e, 0, &[(*b"aaaa", 6, u64::MAX - 1, vec![0xc3])]);
    assert_eq!(Elf::new(fits).unwrap().executable_sections()[0].end_address, u64::MAX);
}

#[test]
fn elf_section_names_that_are_no_text_are_left_out() {
    let image = elf(true, 0x3e, 0, &[([0x80, 0, 0, 0], 6, 0x1000, vec![0xc3])]);
    assert_eq!(Elf::new(image).unwrap().executable_sections()[0].name, None);
}

#[test]
fn the_first_bytes_announce_the_container() {
    let as_pe = FileFormat::parse(pe(0xaa64, 0, 7, &[text(vec![0xc3])])).unwrap();
    assert!(matches!(as_pe, FileFormat::Pe(_)));
    assert_eq!(as_pe.format(), "PE");
    assert_eq!(as_pe.cpu_type(), CpuType::ARM64);
    assert_eq!(as_pe.entry_point(), 7);
    assert_eq!(as_pe.executable_sections().len(), 1);

    let as_elf = FileFormat::parse(elf(false, 0x28, 9, &[(*b"aaaa", 6, 0x1000, vec![1])])).unwrap();
    assert!(matches!(as_elf, FileFormat::Elf(_)));
    assert_eq!(as_elf.format(), "ELF");
    assert_eq!(as_elf.cpu_type(), CpuType::ARM);
    assert_eq!(as_elf.entry_point(), 9);
    assert_eq!(as_elf.executable_sections()[0].data, vec![1]);
}

#[test]
fn files_of_other_containers_are_rejected() {
    assert_eq!(FileFormat::parse(Vec::new()).err(), Some(Error::InvalidFileError));
    assert_eq!(FileFormat::parse(b"MZ".to_vec()).err(), Some(Error::InvalidFileError));
    assert_eq!(FileFormat::parse(b"MZ\0".to_vec()).err(), Some(Error::InvalidFileError));
    assert_eq!(FileFormat::parse(b"MZ\0\0".to_vec()).err(), Some(Error::InvalidFileError));
    // a Mach-O image
    let macho = vec![0xcf, 0xfa, 0xed, 0xfe, 7, 0, 0, 1];
    assert_eq!(FileFormat::parse(macho).err(), Some(Error::InvalidMagicParsingError));
    assert_eq!(FileFormat::parse(b"#!/bin/sh".to_vec()).err(), Some(Error::InvalidMagicParsingError));
    let unknown = pe(0x01c4, 0, 0, &[]);
    assert_eq!(FileFormat::parse(unknown).err(), Some(Error::UnsupportedCpuError));
}

#[test]
fn keep_executable_keeps_the_order() {
    let section = |address: u64, permission| Section {
        permission,
        ..Section::new(address, address + 1)
    };
    let kept = keep_executable(vec![
        section(1, Permission::new(true, false, true)),
        section(2, Permission::new(true, true, false)),
        section(3, Permission::new(false, false, true)),
        section(4, Permission::new(false, false, false)),
        section(5, Permission::new(true, true, true)),
    ]);
    assert_eq!(kept.iter().map(|s| s.start_address).collect::<Vec<_>>(), vec![1, 3, 5]);
    assert!(keep_executable(Vec::new()).is_empty());
}

#[test]
fn a_session_starts_from_the_defaults() {
    let image = elf(true, 0x3e, 0x1000, &[(*b"aaaa", 6, 0x1000, vec![0xc3])]);
    let session = Session::new("some/binary".to_string(), image).unwrap();
    assert_eq!(session.filepath(), "some/binary");
    assert_eq!(session.info.filepath, "some/binary");
    assert_eq!(session.nb_thread, 4);
    assert_eq!(session.max_gadget_length, 6);
    assert_eq!(session.max_gadget_size, 32);
    assert!(session.gadgets.is_empty());
    assert!(!session.unique_only);
    assert!(session.info.is_64b());
    assert_eq!(session.info.format.cpu_type(), CpuType::X64);
}

#[test]
fn a_session_cannot_start_from_a_file_that_cannot_be_loaded() {
    let path = || "some/binary".to_string();
    assert_eq!(Session::new(path(), Vec::new()).err(), Some(Error::InvalidFileError));
    assert_eq!(Session::new(path(), b"hello".to_vec()).err(), Some(Error::InvalidMagicParsingError));
    assert_eq!(
        Session::new(path(), pe(0x0200, 0, 0, &[])).err(),
        Some(Error::UnsupportedCpuError)
    );
    assert_eq!(
        ExecutableDetails::new(path(), b"MZ and not much more".to_vec()).err(),
        Some(Error::InvalidFileError)
    );
}

#[test]
fn pointers_are_wide_on_the_wide_cpus() {
    let wide = |image| ExecutableDetails::new("x".to_string(), image).unwrap().is_64b();
    assert!(!wide(pe(0x014c, 0, 0, &[])));
    assert!(wide(pe(0x8664, 0, 0, &[])));
    assert!(wide(pe(0xaa64, 0, 0, &[])));
    assert!(!wide(elf(false, 0x28, 0, &[])));
    assert!(wide(elf(true, 0x28, 0, &[])));
    assert!(!wide(elf(true, 0x03, 0, &[])));
}
