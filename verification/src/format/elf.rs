//! A small ELF reader: enough of the file header to reach the section table.
use vstd::prelude::*;
use vstd::string::*;
use crate::common::GenericResult;
use crate::cpu::CpuType;
use crate::error::Error;
use crate::format::{
    executable_only, in_file, keep_executable, name_of, read_bytes, read_u16_le, read_u32_le,
    read_u64_le, spec_name_of, spec_u16_le, spec_u32_le, spec_u64_le, ExecutableFileFormat,
    ImageModel, SectionIterator,
};
use crate::section::{elf_permission_bits, sections_view, Permission, Section, SectionModel};

verus! {

pub const ELF_CLASS_32: u8 = 1;

pub const ELF_CLASS_64: u8 = 2;

pub const ELF_TYPE_EXEC: u8 = 2;

pub const ELF_TYPE_DYN: u8 = 3;

pub const ELF_MACHINE_386: u16 = 0x0003;

pub const ELF_MACHINE_ARM: u16 = 0x0028;

pub const ELF_MACHINE_AMD64: u16 = 0x003e;

pub const ELF_MACHINE_AARCH64: u16 = 0x00b7;

pub const ELF_SECTION_FLAGS_WRITE: u64 = 0x01;

pub const ELF_SECTION_FLAGS_EXECINSTR: u64 = 0x04;

/// Size of the file header of a 32-bit object.
pub const ELF_HEADER32_SIZE: usize = 52;

/// Size of the file header of a 64-bit object.
pub const ELF_HEADER64_SIZE: usize = 64;

/// Size of one entry of the section table of a 32-bit object.
pub const ELF_SECTION_HEADER32_SIZE: usize = 40;

/// Size of one entry of the section table of a 64-bit object.
pub const ELF_SECTION_HEADER64_SIZE: usize = 64;

pub type ElfCharacteristics = u64;

pub type ElfSectionIterator<'a> = SectionIterator<'a, Elf>;

/// What the file header of an ELF object says, as far as the section table needs it.
pub struct ElfHeader {
    pub cpu_type: CpuType,
    pub is_64b: bool,
    pub number_of_sections: nat,
    pub section_table_offset: nat,
    pub entry_point: u64,
}

pub open spec fn has_elf_magic(bytes: Seq<u8>) -> bool {
    &&& bytes.len() >= 4
    &&& bytes[0] == 0x7f
    &&& bytes[1] == 0x45
    &&& bytes[2] == 0x4c
    &&& bytes[3] == 0x46
}

/// The CPU that a machine tag stands for in an object of the given class. The tag of ARM
/// stands for ARM64 in a 64-bit object.
pub open spec fn spec_elf_machine(tag: int, is_64b: bool) -> Option<CpuType> {
    if tag == ELF_MACHINE_386 {
        Some(CpuType::X86)
    } else if tag == ELF_MACHINE_AMD64 {
        Some(CpuType::X64)
    } else if tag == ELF_MACHINE_AARCH64 {
        Some(CpuType::ARM64)
    } else if tag == ELF_MACHINE_ARM {
        if is_64b {
            Some(CpuType::ARM64)
        } else {
            Some(CpuType::ARM)
        }
    } else {
        None
    }
}

/// What reading the file header of `bytes` as an ELF object gives.
///
/// The file must start with the ELF signature, name one of the two classes, name a supported
/// machine and hold the whole file header of its class.
pub open spec fn spec_parse_elf(bytes: Seq<u8>) -> Result<ElfHeader, Error> {
    if !has_elf_magic(bytes) {
        Err(Error::InvalidMagicParsingError)
    } else if bytes.len() < 5 || (bytes[4] != ELF_CLASS_32 && bytes[4] != ELF_CLASS_64) {
        Err(Error::InvalidFileError)
    } else {
        let is_64b = bytes[4] == ELF_CLASS_64;
        if !in_file(bytes, 18, 2) {
            Err(Error::InvalidFileError)
        } else {
            match spec_elf_machine(spec_u16_le(bytes, 18), is_64b) {
                None => Err(Error::UnsupportedCpuError),
                Some(cpu_type) => {
                    if is_64b {
                        if bytes.len() < ELF_HEADER64_SIZE || spec_u64_le(bytes, 40) > usize::MAX {
                            Err(Error::InvalidFileError)
                        } else {
                            Ok(
                                ElfHeader {
                                    cpu_type,
                                    is_64b,
                                    number_of_sections: spec_u16_le(bytes, 60) as nat,
                                    section_table_offset: spec_u64_le(bytes, 40) as nat,
                                    entry_point: spec_u64_le(bytes, 24) as u64,
                                },
                            )
                        }
                    } else {
                        if bytes.len() < ELF_HEADER32_SIZE {
                            Err(Error::InvalidFileError)
                        } else {
                            Ok(
                                ElfHeader {
                                    cpu_type,
                                    is_64b,
                                    number_of_sections: spec_u16_le(bytes, 48) as nat,
                                    section_table_offset: spec_u32_le(bytes, 32) as nat,
                                    entry_point: spec_u32_le(bytes, 24) as u64,
                                },
                            )
                        }
                    }
                },
            }
        }
    }
}

pub open spec fn spec_section_header_size(is_64b: bool) -> int {
    if is_64b {
        ELF_SECTION_HEADER64_SIZE as int
    } else {
        ELF_SECTION_HEADER32_SIZE as int
    }
}

/// A section from the fields of its table entry, unless its bytes lie outside the file or its
/// addresses pass the end of the address space.
pub open spec fn spec_elf_section(
    bytes: Seq<u8>,
    name: Seq<u8>,
    flags: int,
    addr: int,
    raw_offset: int,
    size: int,
) -> Option<SectionModel> {
    if addr + size > u64::MAX {
        None
    } else if !in_file(bytes, raw_offset, size) {
        None
    } else {
        Some(
            SectionModel {
                start_address: addr as u64,
                end_address: (addr + size) as u64,
                name: spec_name_of(name),
                permission: elf_permission_bits(flags as u64),
                data: bytes.subrange(raw_offset, raw_offset + size),
            },
        )
    }
}

/// The section that entry `index` of the section table describes, unless the entry cannot be
/// read.
pub open spec fn spec_elf_section_at(bytes: Seq<u8>, h: ElfHeader, index: nat) -> Option<
    SectionModel,
> {
    let off = h.section_table_offset + index * spec_section_header_size(h.is_64b);
    if !in_file(bytes, off, spec_section_header_size(h.is_64b)) {
        None
    } else if h.is_64b {
        spec_elf_section(
            bytes,
            bytes.subrange(off, off + 4),
            spec_u64_le(bytes, off + 0x08),
            spec_u64_le(bytes, off + 0x10),
            spec_u64_le(bytes, off + 0x18),
            spec_u64_le(bytes, off + 0x20),
        )
    } else {
        spec_elf_section(
            bytes,
            bytes.subrange(off, off + 4),
            spec_u32_le(bytes, off + 0x08),
            spec_u32_le(bytes, off + 0x0c),
            spec_u32_le(bytes, off + 0x10),
            spec_u32_le(bytes, off + 0x14),
        )
    }
}

/// The sections that the table describes from entry `from` on, up to the first entry that
/// cannot be read.
pub open spec fn spec_elf_sections(bytes: Seq<u8>, h: ElfHeader, from: nat) -> Seq<SectionModel>
    decreases h.number_of_sections - from,
{
    if from >= h.number_of_sections {
        Seq::empty()
    } else {
        match spec_elf_section_at(bytes, h, from) {
            None => Seq::empty(),
            Some(s) => seq![s] + spec_elf_sections(bytes, h, from + 1),
        }
    }
}

/// What loading `bytes` as an ELF object gives.
pub open spec fn spec_load_elf(bytes: Seq<u8>) -> Result<ImageModel, Error> {
    match spec_parse_elf(bytes) {
        Err(e) => Err(e),
        Ok(h) => Ok(
            ImageModel {
                sections: executable_only(spec_elf_sections(bytes, h, 0)),
                entry_point: h.entry_point,
                cpu_type: h.cpu_type,
            },
        ),
    }
}

/// An ELF object as the search needs it.
#[derive(Debug)]
pub struct Elf {
    cpu_type: CpuType,
    is_64b: bool,
    bytes: Vec<u8>,
    number_of_sections: usize,
    section_table_offset: usize,
    entry_point: u64,
    sections: Vec<Section>,
}

fn elf_machine(tag: u16, is_64b: bool) -> (m: Option<CpuType>)
    ensures
        m == spec_elf_machine(tag as int, is_64b),
{
    if tag == ELF_MACHINE_386 {
        Some(CpuType::X86)
    } else if tag == ELF_MACHINE_AMD64 {
        Some(CpuType::X64)
    } else if tag == ELF_MACHINE_AARCH64 {
        Some(CpuType::ARM64)
    } else if tag == ELF_MACHINE_ARM {
        if is_64b {
            Some(CpuType::ARM64)
        } else {
            Some(CpuType::ARM)
        }
    } else {
        None
    }
}

impl View for Elf {
    type V = ImageModel;

    closed spec fn view(&self) -> ImageModel {
        ImageModel {
            sections: sections_view(self.sections@),
            entry_point: self.entry_point,
            cpu_type: self.cpu_type,
        }
    }
}

impl Elf {
    /// The file header that the object was read with.
    pub closed spec fn header(&self) -> ElfHeader {
        ElfHeader {
            cpu_type: self.cpu_type,
            is_64b: self.is_64b,
            number_of_sections: self.number_of_sections as nat,
            section_table_offset: self.section_table_offset as nat,
            entry_point: self.entry_point,
        }
    }

    /// The bytes of the object.
    pub closed spec fn image(&self) -> Seq<u8> {
        self.bytes@
    }

    /// Loads an ELF object: its CPU, its entry point and the sections that may be executed.
    pub fn new(bytes: Vec<u8>) -> (r: GenericResult<Self>)
        ensures
            match spec_load_elf(bytes@) {
                Ok(m) => r is Ok && r->Ok_0@ == m && r->Ok_0.image() == bytes@ && spec_parse_elf(
                    bytes@,
                ) == Ok::<ElfHeader, Error>(r->Ok_0.header()),
                Err(e) => r is Err && r->Err_0 == e,
            },
    {
        let elf_header: &[u8] = bytes.as_slice();

        if elf_header.len() < 4 || elf_header[0] != 0x7f || elf_header[1] != 0x45 || elf_header[2]
            != 0x4c || elf_header[3] != 0x46 {
            return Err(Error::InvalidMagicParsingError);
        }
        if elf_header.len() < 5 {
            return Err(Error::InvalidFileError);
        }
        let is_64b: bool = if elf_header[4] == ELF_CLASS_32 {
            false
        } else if elf_header[4] == ELF_CLASS_64 {
            true
        } else {
            return Err(Error::InvalidFileError);
        };

        let machine: CpuType = match read_u16_le(elf_header, 18) {
            None => {
                return Err(Error::InvalidFileError);
            },
            Some(tag) => match elf_machine(tag, is_64b) {
                None => {
                    return Err(Error::UnsupportedCpuError);
                },
                Some(m) => m,
            },
        };

        let header_size: usize = if is_64b {
            ELF_HEADER64_SIZE
        } else {
            ELF_HEADER32_SIZE
        };
        if elf_header.len() < header_size {
            return Err(Error::InvalidFileError);
        }
        let entrypoint: u64 = if is_64b {
            match read_u64_le(elf_header, 24) {
                Some(v) => v,
                None => {
                    return Err(Error::InvalidFileError);
                },
            }
        } else {
            match read_u32_le(elf_header, 24) {
                Some(v) => v as u64,
                None => {
                    return Err(Error::InvalidFileError);
                },
            }
        };
        let e_shnum_off: usize = if is_64b {
            60
        } else {
            48
        };
        let number_of_sections: usize = match read_u16_le(elf_header, e_shnum_off) {
            Some(v) => v as usize,
            None => {
                return Err(Error::InvalidFileError);
            },
        };
        let section_table_offset: usize = if is_64b {
            match read_u64_le(elf_header, 40) {
                Some(v) => {
                    if v > usize::MAX as u64 {
                        return Err(Error::InvalidFileError);
                    }
                    v as usize
                },
                None => {
                    return Err(Error::InvalidFileError);
                },
            }
        } else {
            match read_u32_le(elf_header, 32) {
                Some(v) => v as usize,
                None => {
                    return Err(Error::InvalidFileError);
                },
            }
        };

        let mut elf = Elf {
            bytes,
            cpu_type: machine,
            is_64b,
            number_of_sections,
            section_table_offset,
            entry_point: entrypoint,
            sections: Vec::new(),
        };
        let all = elf.all_sections();
        elf.sections = keep_executable(all);
        Ok(elf)
    }

    /// Every section of the table, in table order, up to the first entry that cannot be read.
    fn all_sections(&self) -> (vec: Vec<Section>)
        ensures
            sections_view(vec@) == spec_elf_sections(self.image(), self.header(), 0),
    {
        let mut vec: Vec<Section> = Vec::new();
        let mut si = ElfSectionIterator::new(self);
        assert(sections_view(vec@) =~= Seq::<SectionModel>::empty());
        loop
            invariant_except_break
                si.header() == self.header(),
                si.image() == self.image(),
                spec_elf_sections(self.image(), self.header(), 0) == sections_view(vec@)
                    + spec_elf_sections(self.image(), self.header(), si.position()),
            ensures
                sections_view(vec@) == spec_elf_sections(self.image(), self.header(), 0),
            decreases self.header().number_of_sections - si.position() + 1,
        {
            let ghost before = si.position();
            let ghost seen = sections_view(vec@);
            let res = si.next();
            match res {
                Some(sec) => {
                    vec.push(sec);
                    assert(sections_view(vec@) =~= seen.push(sec@));
                    assert(seen.push(sec@) + spec_elf_sections(
                        self.image(),
                        self.header(),
                        before + 1,
                    ) =~= seen + (seq![sec@] + spec_elf_sections(
                        self.image(),
                        self.header(),
                        before + 1,
                    )));
                },
                None => {
                    assert(spec_elf_sections(self.image(), self.header(), before) =~= Seq::<
                        SectionModel,
                    >::empty());
                    assert(seen + Seq::<SectionModel>::empty() =~= seen);
                    break ;
                },
            }
        }
        vec
    }
}

impl<'a> SectionIterator<'a, Elf> {
    pub closed spec fn header(&self) -> ElfHeader {
        self.obj.header()
    }

    pub closed spec fn image(&self) -> Seq<u8> {
        self.obj.image()
    }

    pub fn new(obj: &'a Elf) -> (si: Self)
        ensures
            si.position() == 0,
            si.header() == obj.header(),
            si.image() == obj.image(),
    {
        SectionIterator { index: 0, obj }
    }

    /// The section that the current entry describes; the walk then stands at the next entry.
    /// Nothing once the table is exhausted, and nothing for an entry that cannot be read.
    pub fn next(&mut self) -> (r: Option<Section>)
        ensures
            final(self).header() == old(self).header(),
            final(self).image() == old(self).image(),
            old(self).position() >= old(self).header().number_of_sections ==> {
                &&& r is None
                &&& final(self).position() == old(self).position()
            },
            old(self).position() < old(self).header().number_of_sections ==> {
                &&& final(self).position() == old(self).position() + 1
                &&& match spec_elf_section_at(
                    old(self).image(),
                    old(self).header(),
                    old(self).position(),
                ) {
                    Some(m) => r is Some && r->0@ == m,
                    None => r is None,
                }
            },
    {
        let elf_header: &[u8] = self.obj.bytes.as_slice();
        let is_64b: bool = self.obj.is_64b;
        let section_size: usize = if is_64b {
            ELF_SECTION_HEADER64_SIZE
        } else {
            ELF_SECTION_HEADER32_SIZE
        };

        if self.index >= self.obj.number_of_sections {
            return None;
        }
        let section_index: usize = self.index;
        self.index = self.index + 1;

        let file_len: usize = elf_header.len();
        let ghost off = self.obj.section_table_offset + section_index * section_size;
        let table_span: usize = match section_index.checked_mul(section_size) {
            Some(v) => v,
            None => {
                assert(off > file_len);
                return None;
            },
        };
        let section_offset: usize = match self.obj.section_table_offset.checked_add(table_span) {
            Some(v) => v,
            None => {
                assert(off > file_len);
                return None;
            },
        };
        if file_len < section_size || section_offset > file_len - section_size {
            return None;
        }
        let raw_name: Vec<u8> = match read_bytes(elf_header, section_offset, 4) {
            Some(v) => v,
            None => {
                return None;
            },
        };
        if is_64b {
            let flags = read_u64_le(elf_header, section_offset + 0x08);
            let addr = read_u64_le(elf_header, section_offset + 0x10);
            let raw_offset = read_u64_le(elf_header, section_offset + 0x18);
            let size = read_u64_le(elf_header, section_offset + 0x20);
            match (flags, addr, raw_offset, size) {
                (Some(f), Some(a), Some(o), Some(s)) => elf_section(elf_header, raw_name, f, a, o, s),
                _ => None,
            }
        } else {
            let flags = read_u32_le(elf_header, section_offset + 0x08);
            let addr = read_u32_le(elf_header, section_offset + 0x0c);
            let raw_offset = read_u32_le(elf_header, section_offset + 0x10);
            let size = read_u32_le(elf_header, section_offset + 0x14);
            match (flags, addr, raw_offset, size) {
                (Some(f), Some(a), Some(o), Some(s)) => elf_section(
                    elf_header,
                    raw_name,
                    f as u64,
                    a as u64,
                    o as u64,
                    s as u64,
                ),
                _ => None,
            }
        }
    }
}

/// Builds a section from the fields of its table entry.
fn elf_section(
    bytes: &[u8],
    raw_name: Vec<u8>,
    flags: u64,
    addr: u64,
    raw_offset: u64,
    size: u64,
) -> (r: Option<Section>)
    ensures
        match spec_elf_section(
            bytes@,
            raw_name@,
            flags as int,
            addr as int,
            raw_offset as int,
            size as int,
        ) {
            Some(m) => r is Some && r->0@ == m,
            None => r is None,
        },
{
    let end_address: u64 = match addr.checked_add(size) {
        Some(v) => v,
        None => {
            return None;
        },
    };
    let file_len: usize = bytes.len();
    if raw_offset > file_len as u64 || size > file_len as u64 {
        return None;
    }
    let data: Vec<u8> = match read_bytes(bytes, raw_offset as usize, size as usize) {
        Some(v) => v,
        None => {
            return None;
        },
    };
    Some(
        Section {
            start_address: addr,
            end_address,
            name: name_of(raw_name),
            permission: Permission::from(flags),
            data,
        },
    )
}

impl ExecutableFileFormat for Elf {
    open spec fn model(&self) -> ImageModel {
        self@
    }

    open spec fn spec_format(&self) -> Seq<char> {
        "ELF"@
    }

    fn format(&self) -> (name: &'static str) {
        "ELF"
    }

    fn executable_sections(&self) -> (sections: &Vec<Section>) {
        &self.sections
    }

    fn cpu_type(&self) -> (t: CpuType) {
        self.cpu_type
    }

    fn entry_point(&self) -> (address: u64) {
        self.entry_point
    }
}

} // verus!
