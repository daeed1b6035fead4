//! A small PE reader: enough of the headers to reach the section table, for x86, x86-64 and
//! ARM64 images.
use vstd::prelude::*;
use vstd::string::*;
use crate::common::GenericResult;
use crate::cpu::CpuType;
use crate::error::Error;
use crate::numbers::{format_decimal, format_hex, spec_decimal, spec_hex};
use crate::format::{
    executable_only, in_file, keep_executable, name_of, read_bytes, read_u16_le, read_u32_le,
    read_u64_le, spec_name_of, spec_u16_le, spec_u32_le, spec_u64_le, ExecutableFileFormat,
    ImageModel,
};
use crate::section::{pe_permission_bits, sections_view, Permission, Section, SectionModel};

verus! {

pub type PeCharacteristics = u32;

pub const IMAGE_FILE_MACHINE_I386: u16 = 0x014c;

pub const IMAGE_FILE_MACHINE_X86_64: u16 = 0x8664;

pub const IMAGE_FILE_MACHINE_ARM64: u16 = 0xaa64;

pub const IMAGE_SCN_MEM_EXECUTE: u32 = 0x20000000;

pub const IMAGE_SCN_MEM_READ: u32 = 0x40000000;

pub const IMAGE_SCN_MEM_WRITE: u32 = 0x80000000;

/// Offset of `e_lfanew`, the file offset of the PE header, in the DOS header.
pub const DOS_E_LFANEW_OFFSET: usize = 0x3c;

/// Size of the DOS header.
pub const IMAGE_DOS_HEADER_SIZE: usize = 0x40;

/// Size of the PE signature and the file header that follows it.
pub const IMAGE_NT_HEADER_SIZE: usize = 24;

/// Size of one entry of the section table.
pub const IMAGE_SECTION_HEADER_SIZE: usize = 40;

/// The optional header of a 32-bit image.
#[derive(Debug, Clone, Copy)]
pub struct ImageOptionalHeader32 {
    pub magic: u16,
    pub major_linker_version: u8,
    pub minor_linker_version: u8,
    pub size_of_code: u32,
    pub size_of_initialized_data: u32,
    pub size_of_uninitialized_data: u32,
    pub address_of_entry_point: u32,
    pub base_of_code: u32,
    pub base_of_data: u32,
    pub image_base: u32,
    pub section_alignment: u32,
    pub file_alignment: u32,
    pub major_operating_system_version: u16,
    pub minor_operating_system_version: u16,
    pub major_image_version: u16,
    pub minor_image_version: u16,
    pub major_subsystem_version: u16,
    pub minor_subsystem_version: u16,
    pub win32_version_value: u32,
    pub size_of_image: u32,
    pub size_of_headers: u32,
    pub check_sum: u32,
    pub subsystem: u16,
    pub dll_characteristics: u16,
    pub size_of_stack_reserve: u32,
    pub size_of_stack_commit: u32,
    pub size_of_heap_reserve: u32,
    pub size_of_heap_commit: u32,
    pub loader_flags: u32,
    pub number_of_rva_and_sizes: u32,
}

/// The optional header of a 64-bit image.
#[derive(Debug, Clone, Copy)]
pub struct ImageOptionalHeader64 {
    pub magic: u16,
    pub major_linker_version: u8,
    pub minor_linker_version: u8,
    pub size_of_code: u32,
    pub size_of_initialized_data: u32,
    pub size_of_uninitialized_data: u32,
    pub address_of_entry_point: u32,
    pub base_of_code: u32,
    pub image_base: u64,
    pub section_alignment: u32,
    pub file_alignment: u32,
    pub major_operating_system_version: u16,
    pub minor_operating_system_version: u16,
    pub major_image_version: u16,
    pub minor_image_version: u16,
    pub major_subsystem_version: u16,
    pub minor_subsystem_version: u16,
    pub win32_version_value: u32,
    pub size_of_image: u32,
    pub size_of_headers: u32,
    pub check_sum: u32,
    pub subsystem: u16,
    pub dll_characteristics: u16,
    pub size_of_stack_reserve: u64,
    pub size_of_stack_commit: u64,
    pub size_of_heap_reserve: u64,
    pub size_of_heap_commit: u64,
    pub loader_flags: u32,
    pub number_of_rva_and_sizes: u32,
}

/// One entry of the section table.
#[derive(Debug, Clone, Copy)]
pub struct ImageSectionHeader {
    pub name: [u8; 8],
    pub virtual_size: u32,
    pub virtual_address: u32,
    pub size_of_raw_data: u32,
    pub pointer_to_raw_data: u32,
    pub pointer_to_relocations: u32,
    pub pointer_to_line_numbers: u32,
    pub number_of_relocations: u16,
    pub number_of_line_numbers: u16,
    pub characteristics: u32,
}

/// What the headers of a PE image say, as far as the section table needs it.
pub struct PeHeader {
    pub machine: CpuType,
    pub number_of_sections: nat,
    pub section_table_offset: nat,
    pub image_base: u64,
    pub entry_point: u64,
}

/// The CPU that a machine tag of the file header stands for.
pub open spec fn spec_pe_machine(tag: int) -> Option<CpuType> {
    if tag == IMAGE_FILE_MACHINE_I386 {
        Some(CpuType::X86)
    } else if tag == IMAGE_FILE_MACHINE_X86_64 {
        Some(CpuType::X64)
    } else if tag == IMAGE_FILE_MACHINE_ARM64 {
        Some(CpuType::ARM64)
    } else {
        None
    }
}

/// Size of the part of the optional header that is read: up to the end of the image base.
pub const OPTIONAL_HEADER_READ: usize = 32;

/// The image base that the optional header at offset `opt` states: four bytes behind
/// `base_of_data` in a 32-bit image, eight bytes in its place in a 64-bit one.
pub open spec fn spec_image_base(bytes: Seq<u8>, opt: int, machine: CpuType) -> int {
    if machine == CpuType::X86 {
        spec_u32_le(bytes, opt + 28)
    } else {
        spec_u64_le(bytes, opt + 24)
    }
}

/// Offset of the entry point in the optional header.
pub const ENTRY_POINT_OFFSET: usize = 16;

pub open spec fn has_dos_magic(bytes: Seq<u8>) -> bool {
    bytes.len() >= 2 && bytes[0] == 0x4d && bytes[1] == 0x5a
}

pub open spec fn has_nt_magic(bytes: Seq<u8>, off: int) -> bool {
    &&& in_file(bytes, off, 4)
    &&& bytes[off] == 0x50
    &&& bytes[off + 1] == 0x45
    &&& bytes[off + 2] == 0
    &&& bytes[off + 3] == 0
}

/// What reading the headers of `bytes` as a PE image gives.
///
/// The file must start with `MZ`, hold a whole DOS header, carry `PE\0\0` where the DOS
/// header points, name a supported machine, and be long enough for the fields of the optional
/// header that are read: the entry point and the image base.
pub open spec fn spec_parse_pe(bytes: Seq<u8>) -> Result<PeHeader, Error> {
    if !has_dos_magic(bytes) {
        Err(Error::InvalidMagicParsingError)
    } else if bytes.len() < IMAGE_DOS_HEADER_SIZE {
        Err(Error::InvalidFileError)
    } else {
        let pe_offset = spec_u32_le(bytes, DOS_E_LFANEW_OFFSET as int);
        if !has_nt_magic(bytes, pe_offset) {
            Err(Error::InvalidStructureParsingError)
        } else if !in_file(bytes, pe_offset + 4, 2) {
            Err(Error::InvalidFileError)
        } else {
            match spec_pe_machine(spec_u16_le(bytes, pe_offset + 4)) {
                None => Err(Error::UnsupportedCpuError),
                Some(machine) => {
                    let opt = pe_offset + IMAGE_NT_HEADER_SIZE;
                    if !in_file(bytes, opt, OPTIONAL_HEADER_READ as int) {
                        Err(Error::InvalidFileError)
                    } else {
                        let table = opt + spec_u16_le(bytes, pe_offset + 20);
                        if table > usize::MAX {
                            Err(Error::InvalidFileError)
                        } else {
                            Ok(
                                PeHeader {
                                    machine,
                                    number_of_sections: spec_u16_le(bytes, pe_offset + 6) as nat,
                                    section_table_offset: table as nat,
                                    image_base: spec_image_base(bytes, opt, machine) as u64,
                                    entry_point: spec_u32_le(bytes, opt + ENTRY_POINT_OFFSET) as u64,
                                },
                            )
                        }
                    }
                },
            }
        }
    }
}

/// The section that entry `index` of the section table describes, unless the entry or the
/// bytes it points at lie outside the file, or its addresses pass the end of the address space.
pub open spec fn spec_pe_section_at(bytes: Seq<u8>, h: PeHeader, index: nat) -> Option<SectionModel> {
    let off = h.section_table_offset + index * IMAGE_SECTION_HEADER_SIZE;
    if !in_file(bytes, off, IMAGE_SECTION_HEADER_SIZE as int) {
        None
    } else {
        let virtual_size = spec_u32_le(bytes, off + 0x08);
        let virtual_address = spec_u32_le(bytes, off + 0x0c);
        let raw_size = spec_u32_le(bytes, off + 0x10);
        let raw_offset = spec_u32_le(bytes, off + 0x14);
        let characteristics = spec_u32_le(bytes, off + 0x24);
        if h.image_base + virtual_address + virtual_size > u64::MAX {
            None
        } else if !in_file(bytes, raw_offset, raw_size) {
            None
        } else {
            Some(
                SectionModel {
                    start_address: (h.image_base + virtual_address) as u64,
                    end_address: (h.image_base + virtual_address + virtual_size) as u64,
                    name: spec_name_of(bytes.subrange(off, off + 8)),
                    permission: pe_permission_bits(characteristics as u32),
                    data: bytes.subrange(raw_offset, raw_offset + raw_size),
                },
            )
        }
    }
}

/// The sections that the table describes from entry `from` on, up to the first entry that
/// cannot be read.
pub open spec fn spec_pe_sections(bytes: Seq<u8>, h: PeHeader, from: nat) -> Seq<SectionModel>
    decreases h.number_of_sections - from,
{
    if from >= h.number_of_sections {
        Seq::empty()
    } else {
        match spec_pe_section_at(bytes, h, from) {
            None => Seq::empty(),
            Some(s) => seq![s] + spec_pe_sections(bytes, h, from + 1),
        }
    }
}

/// The headers of a PE image described in one line: the CPU, the number of sections and the
/// offset of the section table in decimal digits, the image base and the entry point in
/// hexadecimal digits.
pub open spec fn spec_describe_pe(h: PeHeader) -> Seq<char> {
    "PeParser [machine="@ + h.machine.spec_name() + ", number_of_sections="@ + spec_decimal(
        h.number_of_sections,
    ) + ", section_table_offset="@ + spec_decimal(h.section_table_offset) + ", image_base=0x"@
        + spec_hex(h.image_base as nat, 1) + ", entry_point=0x"@ + spec_hex(
        h.entry_point as nat,
        1,
    ) + "]"@
}

/// The headers of a PE image, read far enough to walk its section table.
pub struct PeParser<'a> {
    bytes: &'a [u8],
    machine: CpuType,
    number_of_sections: usize,
    section_table_offset: usize,
    image_base: u64,
    pub entry_point: u64,
}

impl<'a> View for PeParser<'a> {
    type V = PeHeader;

    closed spec fn view(&self) -> PeHeader {
        PeHeader {
            machine: self.machine,
            number_of_sections: self.number_of_sections as nat,
            section_table_offset: self.section_table_offset as nat,
            image_base: self.image_base,
            entry_point: self.entry_point,
        }
    }
}

fn pe_machine(tag: u16) -> (m: Option<CpuType>)
    ensures
        m == spec_pe_machine(tag as int),
{
    if tag == IMAGE_FILE_MACHINE_I386 {
        Some(CpuType::X86)
    } else if tag == IMAGE_FILE_MACHINE_X86_64 {
        Some(CpuType::X64)
    } else if tag == IMAGE_FILE_MACHINE_ARM64 {
        Some(CpuType::ARM64)
    } else {
        None
    }
}

impl<'a> PeParser<'a> {
    /// The bytes of the image that the parser reads.
    pub closed spec fn image(&self) -> Seq<u8> {
        self.bytes@
    }

    /// Reads the DOS header, the file header and the start of the optional header.
    pub fn parse(bytes: &'a [u8]) -> (r: GenericResult<Self>)
        ensures
            match spec_parse_pe(bytes@) {
                Ok(h) => r is Ok && r->Ok_0@ == h && r->Ok_0.image() == bytes@,
                Err(e) => r is Err && r->Err_0 == e,
            },
    {
        let dos_header: &[u8] = bytes;

        // check the dos signature
        if dos_header.len() < 2 || dos_header[0] != 0x4d || dos_header[1] != 0x5a {
            return Err(Error::InvalidMagicParsingError);
        }
        if dos_header.len() < IMAGE_DOS_HEADER_SIZE {
            return Err(Error::InvalidFileError);
        }

        // goto the pe header
        let pe_offset: usize = match read_u32_le(dos_header, DOS_E_LFANEW_OFFSET) {
            Some(v) => {
                if v as u64 > usize::MAX as u64 {
                    return Err(Error::InvalidStructureParsingError);
                }
                v as usize
            },
            None => {
                return Err(Error::InvalidFileError);
            },
        };

        // check for the pe signature
        if dos_header.len() < 4 || pe_offset > dos_header.len() - 4 {
            return Err(Error::InvalidStructureParsingError);
        }
        if dos_header[pe_offset] != 0x50 || dos_header[pe_offset + 1] != 0x45 || dos_header[pe_offset
            + 2] != 0 || dos_header[pe_offset + 3] != 0 {
            return Err(Error::InvalidStructureParsingError);
        }

        // check machine id
        let machine: CpuType = match read_u16_le(dos_header, pe_offset + 4) {
            None => {
                return Err(Error::InvalidFileError);
            },
            Some(tag) => match pe_machine(tag) {
                None => {
                    return Err(Error::UnsupportedCpuError);
                },
                Some(m) => m,
            },
        };

        // the fields of the optional header that are read lie inside the file
        if dos_header.len() - pe_offset < IMAGE_NT_HEADER_SIZE + OPTIONAL_HEADER_READ {
            return Err(Error::InvalidFileError);
        }
        let opt: usize = pe_offset + IMAGE_NT_HEADER_SIZE;

        let number_of_sections: usize = match read_u16_le(dos_header, pe_offset + 6) {
            Some(v) => v as usize,
            None => {
                return Err(Error::InvalidFileError);
            },
        };
        let size_of_optional_header: usize = match read_u16_le(dos_header, pe_offset + 20) {
            Some(v) => v as usize,
            None => {
                return Err(Error::InvalidFileError);
            },
        };
        let section_table_offset: usize = match opt.checked_add(size_of_optional_header) {
            Some(v) => v,
            None => {
                return Err(Error::InvalidFileError);
            },
        };
        let image_base: u64 = match machine {
            CpuType::X86 => match read_u32_le(dos_header, opt + 28) {
                Some(v) => v as u64,
                None => {
                    return Err(Error::InvalidFileError);
                },
            },
            _ => match read_u64_le(dos_header, opt + 24) {
                Some(v) => v,
                None => {
                    return Err(Error::InvalidFileError);
                },
            },
        };
        let entry_point: u64 = match read_u32_le(dos_header, opt + ENTRY_POINT_OFFSET) {
            Some(v) => v as u64,
            None => {
                return Err(Error::InvalidFileError);
            },
        };

        Ok(
            PeParser {
                bytes: dos_header,
                machine,
                number_of_sections,
                image_base,
                entry_point,
                section_table_offset,
            },
        )
    }

    /// The headers described in one line.
    pub fn to_string(&self) -> (s: String)
        ensures
            s@ == spec_describe_pe(self@),
    {
        let mut s = String::from_str("PeParser [machine=");
        let machine = self.machine.to_string();
        s.append(machine.as_str());
        s.append(", number_of_sections=");
        let count = format_decimal(self.number_of_sections as u64);
        s.append(count.as_str());
        s.append(", section_table_offset=");
        let offset = format_decimal(self.section_table_offset as u64);
        s.append(offset.as_str());
        s.append(", image_base=0x");
        let base = format_hex(self.image_base, 1);
        s.append(base.as_str());
        s.append(", entry_point=0x");
        let entry = format_hex(self.entry_point, 1);
        s.append(entry.as_str());
        s.append("]");
        s
    }

    /// Every section of the table, in table order, up to the first entry that cannot be read.
    pub fn sections(&self) -> (r: GenericResult<Vec<Section>>)
        ensures
            r is Ok,
            sections_view(r->Ok_0@) == spec_pe_sections(self.image(), self@, 0),
    {
        let mut vec: Vec<Section> = Vec::new();
        let mut si = SectionIterator::new(self);
        assert(sections_view(vec@) =~= Seq::<SectionModel>::empty());
        loop
            invariant_except_break
                si.header() == self@,
                si.image() == self.image(),
                spec_pe_sections(self.image(), self@, 0) == sections_view(vec@) + spec_pe_sections(
                    self.image(),
                    self@,
                    si.position(),
                ),
            ensures
                sections_view(vec@) == spec_pe_sections(self.image(), self@, 0),
            decreases self@.number_of_sections - si.position() + 1,
        {
            let ghost before = si.position();
            let ghost seen = sections_view(vec@);
            let res = si.next();
            match res {
                Some(sec) => {
                    vec.push(sec);
                    assert(sections_view(vec@) =~= seen.push(sec@));
                    assert(seen.push(sec@) + spec_pe_sections(self.image(), self@, before + 1)
                        =~= seen + (seq![sec@] + spec_pe_sections(
                        self.image(),
                        self@,
                        before + 1,
                    )));
                },
                None => {
                    assert(spec_pe_sections(self.image(), self@, before) =~= Seq::<
                        SectionModel,
                    >::empty());
                    assert(seen + Seq::<SectionModel>::empty() =~= seen);
                    break ;
                },
            }
        }
        Ok(vec)
    }
}

/// Walks the section table of a parsed image, one entry at each call of `next`.
pub struct SectionIterator<'a> {
    index: usize,
    pe: &'a PeParser<'a>,
}

impl<'a> SectionIterator<'a> {
    /// The index of the entry that the next call of `next` reads.
    pub closed spec fn position(&self) -> nat {
        self.index as nat
    }

    pub closed spec fn header(&self) -> PeHeader {
        self.pe@
    }

    pub closed spec fn image(&self) -> Seq<u8> {
        self.pe.image()
    }

    pub fn new(pe: &'a PeParser<'a>) -> (si: Self)
        ensures
            si.position() == 0,
            si.header() == pe@,
            si.image() == pe.image(),
    {
        SectionIterator { index: 0, pe }
    }

    /// The section that the current entry describes; the walk then stands at the next entry.
    /// Nothing once the table is exhausted, and nothing for an entry that cannot be read.
    pub fn next(&mut self) -> (r: Option<Section>)
        ensures
            final(self).header() == old(self).header(),
            final(self).image() == old(self).image(),
            old(self).position() >= old(self).header().number_of_sections ==> {
                &&& r is None
                &&& final(self).position() == old(self).position()
            },
            old(self).position() < old(self).header().number_of_sections ==> {
                &&& final(self).position() == old(self).position() + 1
                &&& match spec_pe_section_at(
                    old(self).image(),
                    old(self).header(),
                    old(self).position(),
                ) {
                    Some(m) => r is Some && r->0@ == m,
                    None => r is None,
                }
            },
    {
        let dos_header: &[u8] = self.pe.bytes;

        if self.index >= self.pe.number_of_sections {
            return None;
        }
        let section_index: usize = self.index;
        self.index = self.index + 1;

        let file_len: usize = dos_header.len();
        let ghost off = self.pe.section_table_offset + section_index * IMAGE_SECTION_HEADER_SIZE;
        let table_span: usize = match section_index.checked_mul(IMAGE_SECTION_HEADER_SIZE) {
            Some(v) => v,
            None => {
                assert(off > file_len);
                return None;
            },
        };
        let section_offset: usize = match self.pe.section_table_offset.checked_add(table_span) {
            Some(v) => v,
            None => {
                assert(off > file_len);
                return None;
            },
        };
        if dos_header.len() < IMAGE_SECTION_HEADER_SIZE || section_offset > dos_header.len()
            - IMAGE_SECTION_HEADER_SIZE {
            return None;
        }
        let name: Option<String> = match read_bytes(dos_header, section_offset, 8) {
            Some(raw) => name_of(raw),
            None => {
                return None;
            },
        };
        let virtual_size: u64 = match read_u32_le(dos_header, section_offset + 0x08) {
            Some(v) => v as u64,
            None => {
                return None;
            },
        };
        let virtual_address: u64 = match read_u32_le(dos_header, section_offset + 0x0c) {
            Some(v) => v as u64,
            None => {
                return None;
            },
        };
        let raw_size: usize = match read_u32_le(dos_header, section_offset + 0x10) {
            Some(v) => v as usize,
            None => {
                return None;
            },
        };
        let raw_offset: usize = match read_u32_le(dos_header, section_offset + 0x14) {
            Some(v) => v as usize,
            None => {
                return None;
            },
        };
        let characteristics: PeCharacteristics = match read_u32_le(
            dos_header,
            section_offset + 0x24,
        ) {
            Some(v) => v,
            None => {
                return None;
            },
        };
        let start_address: u64 = match self.pe.image_base.checked_add(virtual_address) {
            Some(v) => v,
            None => {
                return None;
            },
        };
        let end_address: u64 = match start_address.checked_add(virtual_size) {
            Some(v) => v,
            None => {
                return None;
            },
        };
        let data: Vec<u8> = match read_bytes(dos_header, raw_offset, raw_size) {
            Some(v) => v,
            None => {
                return None;
            },
        };
        Some(
            Section {
                start_address,
                end_address,
                name,
                permission: Permission::from(characteristics),
                data,
            },
        )
    }
}

/// A PE image as the search needs it.
#[derive(Debug)]
pub struct Pe {
    pub sections: Vec<Section>,
    pub entry_point: u64,
    cpu_type: CpuType,
}

/// What loading `bytes` as a PE image gives.
pub open spec fn spec_load_pe(bytes: Seq<u8>) -> Result<ImageModel, Error> {
    match spec_parse_pe(bytes) {
        Err(e) => Err(e),
        Ok(h) => Ok(
            ImageModel {
                sections: executable_only(spec_pe_sections(bytes, h, 0)),
                entry_point: h.entry_point,
                cpu_type: h.machine,
            },
        ),
    }
}

impl View for Pe {
    type V = ImageModel;

    closed spec fn view(&self) -> ImageModel {
        ImageModel {
            sections: sections_view(self.sections@),
            entry_point: self.entry_point,
            cpu_type: self.cpu_type,
        }
    }
}

impl Pe {
    /// Loads a PE image: its CPU, its entry point and the sections that may be executed.
    pub fn new(buf: &[u8]) -> (r: GenericResult<Self>)
        ensures
            match spec_load_pe(buf@) {
                Ok(m) => r is Ok && r->Ok_0@ == m,
                Err(e) => r is Err && r->Err_0 == e,
            },
    {
        let pe = match PeParser::parse(buf) {
            Ok(p) => p,
            Err(e) => {
                return Err(e);
            },
        };
        let entry_point: u64 = pe.entry_point;
        let machine: CpuType = pe.machine;
        let all = match pe.sections() {
            Ok(v) => v,
            Err(e) => {
                return Err(e);
            },
        };
        let executable_sections = keep_executable(all);
        Ok(Pe { sections: executable_sections, cpu_type: machine, entry_point })
    }
}

impl ExecutableFileFormat for Pe {
    open spec fn model(&self) -> ImageModel {
        self@
    }

    open spec fn spec_format(&self) -> Seq<char> {
        "PE"@
    }

    fn format(&self) -> (name: &'static str) {
        "PE"
    }

    fn executable_sections(&self) -> (sections: &Vec<Section>) {
        &self.sections
    }

    fn cpu_type(&self) -> (t: CpuType) {
        self.cpu_type
    }

    fn entry_point(&self) -> (address: u64) {
        self.entry_point
    }
}

} // verus!
