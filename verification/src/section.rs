//! Sections: the regions of a loaded binary, and what may be done with their bytes.
use vstd::prelude::*;
use vstd::string::*;
use crate::format::elf::{ElfCharacteristics, ELF_SECTION_FLAGS_EXECINSTR, ELF_SECTION_FLAGS_WRITE};
use crate::format::pe::{
    IMAGE_SCN_MEM_EXECUTE, IMAGE_SCN_MEM_READ, IMAGE_SCN_MEM_WRITE, PeCharacteristics,
};
use crate::format::{name_of, spec_name_of};
use crate::numbers::{format_hex, spec_hex};

verus! {

/// What may be done with the bytes of a section: a set of the flags below.
#[derive(Debug, Clone, Copy, PartialEq, Eq)]
pub struct Permission {
    pub bits: u8,
}

pub const PERMISSION_READABLE: u8 = 1;

pub const PERMISSION_WRITABLE: u8 = 2;

pub const PERMISSION_EXECUTABLE: u8 = 4;

/// The flag bits of a permission built from three yes-or-no answers.
pub open spec fn permission_bits(read: bool, write: bool, execute: bool) -> u8 {
    let r: u8 = if read { PERMISSION_READABLE } else { 0u8 };
    let w: u8 = if write { PERMISSION_WRITABLE } else { 0u8 };
    let x: u8 = if execute { PERMISSION_EXECUTABLE } else { 0u8 };
    r | w | x
}

/// Each flag of `permission_bits` is set exactly when its answer was yes.
pub proof fn lemma_permission_bits(read: bool, write: bool, execute: bool)
    ensures
        (permission_bits(read, write, execute) & PERMISSION_READABLE == PERMISSION_READABLE)
            == read,
        (permission_bits(read, write, execute) & PERMISSION_WRITABLE == PERMISSION_WRITABLE)
            == write,
        (permission_bits(read, write, execute) & PERMISSION_EXECUTABLE == PERMISSION_EXECUTABLE)
            == execute,
{
    let r: u8 = if read { 1u8 } else { 0u8 };
    let w: u8 = if write { 2u8 } else { 0u8 };
    let x: u8 = if execute { 4u8 } else { 0u8 };
    assert(((r | w | x) & 1u8 == 1u8) == (r == 1u8) && ((r | w | x) & 2u8 == 2u8) == (w == 2u8)
        && ((r | w | x) & 4u8 == 4u8) == (x == 4u8)) by (bit_vector)
        requires
            r == 0u8 || r == 1u8,
            w == 0u8 || w == 2u8,
            x == 0u8 || x == 4u8,
    ;
}

/// The permission that the characteristics of a PE section grant.
pub open spec fn pe_permission_bits(value: PeCharacteristics) -> u8 {
    permission_bits(
        value & IMAGE_SCN_MEM_READ != 0,
        value & IMAGE_SCN_MEM_WRITE != 0,
        value & IMAGE_SCN_MEM_EXECUTE != 0,
    )
}

/// The permission that the flags of an ELF section grant: code can be read and run, writable
/// data can be read and written.
pub open spec fn elf_permission_bits(flags: ElfCharacteristics) -> u8 {
    permission_bits(
        flags & ELF_SECTION_FLAGS_EXECINSTR != 0 || flags & ELF_SECTION_FLAGS_WRITE != 0,
        flags & ELF_SECTION_FLAGS_WRITE != 0,
        flags & ELF_SECTION_FLAGS_EXECINSTR != 0,
    )
}

impl Permission {
    pub open spec fn view(&self) -> u8 {
        self.bits
    }

    pub open spec fn readable(&self) -> bool {
        self@ & PERMISSION_READABLE == PERMISSION_READABLE
    }

    pub open spec fn writable(&self) -> bool {
        self@ & PERMISSION_WRITABLE == PERMISSION_WRITABLE
    }

    pub open spec fn executable(&self) -> bool {
        self@ & PERMISSION_EXECUTABLE == PERMISSION_EXECUTABLE
    }

    /// The permission with exactly the flags asked for.
    pub fn new(read: bool, write: bool, execute: bool) -> (p: Self)
        ensures
            p@ == permission_bits(read, write, execute),
            p.readable() == read,
            p.writable() == write,
            p.executable() == execute,
    {
        let r: u8 = if read { PERMISSION_READABLE } else { 0u8 };
        let w: u8 = if write { PERMISSION_WRITABLE } else { 0u8 };
        let x: u8 = if execute { PERMISSION_EXECUTABLE } else { 0u8 };
        proof {
            lemma_permission_bits(read, write, execute);
        }
        Permission { bits: r | w | x }
    }

    pub fn bits(&self) -> (b: u8)
        ensures
            b == self@,
    {
        self.bits
    }

    /// Whether every flag of `other` is set in `self`.
    pub fn contains(&self, other: Permission) -> (b: bool)
        ensures
            b == (self@ & other@ == other@),
    {
        self.bits & other.bits == other.bits
    }
}

/// The names of the flags of a permission, with ` | ` between one name and the next, and
/// `0x0` for the permission without any flag.
pub open spec fn spec_permission_names(bits: u8) -> Seq<char> {
    let r = bits & PERMISSION_READABLE == PERMISSION_READABLE;
    let w = bits & PERMISSION_WRITABLE == PERMISSION_WRITABLE;
    let x = bits & PERMISSION_EXECUTABLE == PERMISSION_EXECUTABLE;
    if !r && !w && !x {
        "0x0"@
    } else {
        (if r {
            "READABLE"@
        } else {
            Seq::empty()
        }) + (if r && (w || x) {
            " | "@
        } else {
            Seq::empty()
        }) + (if w {
            "WRITABLE"@
        } else {
            Seq::empty()
        }) + (if w && x {
            " | "@
        } else {
            Seq::empty()
        }) + (if x {
            "EXECUTABLE"@
        } else {
            Seq::empty()
        })
    }
}

impl Permission {
    /// The permission described by the names of its flags.
    pub open spec fn description(&self) -> Seq<char> {
        "Permission("@ + spec_permission_names(self@) + ")"@
    }

    /// The permission described by the names of its flags.
    pub fn to_string(&self) -> (s: String)
        ensures
            s@ == self.description(),
    {
        let r: bool = self.bits & PERMISSION_READABLE == PERMISSION_READABLE;
        let w: bool = self.bits & PERMISSION_WRITABLE == PERMISSION_WRITABLE;
        let x: bool = self.bits & PERMISSION_EXECUTABLE == PERMISSION_EXECUTABLE;
        let mut s = String::from_str("Permission(");
        if !r && !w && !x {
            s.append("0x0");
        } else {
            if r {
                s.append("READABLE");
            }
            if r && (w || x) {
                s.append(" | ");
            }
            if w {
                s.append("WRITABLE");
            }
            if w && x {
                s.append(" | ");
            }
            if x {
                s.append("EXECUTABLE");
            }
        }
        s.append(")");
        assert(s@ =~= self.description());
        s
    }
}

impl Default for Permission {
    /// No flag at all.
    fn default() -> (p: Self)
        ensures
            p@ == 0,
    {
        Permission { bits: 0 }
    }
}

impl From<PeCharacteristics> for Permission {
    fn from(value: PeCharacteristics) -> (perm: Self) {
        Permission::new(
            value & IMAGE_SCN_MEM_READ != 0,
            value & IMAGE_SCN_MEM_WRITE != 0,
            value & IMAGE_SCN_MEM_EXECUTE != 0,
        )
    }
}

impl From<ElfCharacteristics> for Permission {
    fn from(flags: ElfCharacteristics) -> (perm: Self) {
        let write: bool = flags & ELF_SECTION_FLAGS_WRITE != 0;
        let execute: bool = flags & ELF_SECTION_FLAGS_EXECINSTR != 0;
        Permission::new(execute || write, write, execute)
    }
}

impl vstd::std_specs::convert::FromSpecImpl<ElfCharacteristics> for Permission {
    open spec fn obeys_from_spec() -> bool {
        true
    }

    open spec fn from_spec(flags: ElfCharacteristics) -> Self {
        Permission { bits: elf_permission_bits(flags) }
    }
}

impl vstd::std_specs::convert::FromSpecImpl<PeCharacteristics> for Permission {
    open spec fn obeys_from_spec() -> bool {
        true
    }

    open spec fn from_spec(value: PeCharacteristics) -> Self {
        Permission { bits: pe_permission_bits(value) }
    }
}

/// One contiguous region of a loaded binary: where it lies in memory, what may be done with it
/// and the bytes that the file holds for it.
#[derive(Debug)]
pub struct Section {
    pub start_address: u64,
    pub end_address: u64,
    pub name: Option<String>,
    pub permission: Permission,
    pub data: Vec<u8>,
}

/// A section as mathematical values.
pub struct SectionModel {
    pub start_address: u64,
    pub end_address: u64,
    pub name: Option<Seq<char>>,
    pub permission: u8,
    pub data: Seq<u8>,
}

impl SectionModel {
    pub open spec fn executable(self) -> bool {
        self.permission & PERMISSION_EXECUTABLE == PERMISSION_EXECUTABLE
    }
}

impl View for Section {
    type V = SectionModel;

    open spec fn view(&self) -> SectionModel {
        SectionModel {
            start_address: self.start_address,
            end_address: self.end_address,
            name: match self.name {
                Some(n) => Some(n@),
                None => None,
            },
            permission: self.permission@,
            data: self.data@,
        }
    }
}

/// The models of a run of sections, one for one.
pub open spec fn sections_view(sections: Seq<Section>) -> Seq<SectionModel> {
    sections.map_values(|s: Section| s@)
}

impl Default for Section {
    /// The empty section at address zero, without name or permission.
    fn default() -> (s: Self)
        ensures
            s.start_address == 0,
            s.end_address == 0,
            s.name is None,
            s.permission@ == 0,
            s.data@ == Seq::<u8>::empty(),
    {
        Section {
            start_address: 0,
            end_address: 0,
            name: None,
            permission: Permission::default(),
            data: Vec::new(),
        }
    }
}

impl Section {
    /// The end does not lie before the start.
    pub open spec fn wf(&self) -> bool {
        self.start_address <= self.end_address
    }

    /// The number of bytes between the two addresses.
    pub open spec fn spec_size(&self) -> int {
        self.end_address - self.start_address
    }

    /// A section from `start_address` up to `end_address`, without name or permission, whose
    /// bytes are all zero.
    pub fn new(start_address: u64, end_address: u64) -> (s: Self)
        requires
            start_address < end_address,
            end_address - start_address <= usize::MAX,
        ensures
            s.start_address == start_address,
            s.end_address == end_address,
            s.name is None,
            s.permission@ == 0,
            s.data@ == Seq::new((end_address - start_address) as nat, |i: int| 0u8),
    {
        let sz: usize = (end_address - start_address) as usize;
        let data: Vec<u8> = vec![0u8; sz];
        assert(data@ =~= Seq::new((end_address - start_address) as nat, |i: int| 0u8));
        Section {
            start_address,
            end_address,
            name: None,
            permission: Permission::default(),
            data,
        }
    }

    pub fn size(&self) -> (n: usize)
        requires
            self.wf(),
            self.spec_size() <= usize::MAX,
        ensures
            n == self.spec_size(),
    {
        (self.end_address - self.start_address) as usize
    }

    /// The same section under the name given.
    pub fn name(self, name: &str) -> (s: Self)
        ensures
            s@.name == Some(name@),
            s.start_address == self.start_address,
            s.end_address == self.end_address,
            s.permission == self.permission,
            s.data == self.data,
    {
        Section {
            start_address: self.start_address,
            end_address: self.end_address,
            name: Some(String::from_str(name)),
            permission: self.permission,
            data: self.data,
        }
    }

    /// The same section holding the bytes given.
    pub fn data(self, data: Vec<u8>) -> (s: Self)
        ensures
            s.data == data,
            s.start_address == self.start_address,
            s.end_address == self.end_address,
            s.permission == self.permission,
            s.name == self.name,
    {
        Section {
            start_address: self.start_address,
            end_address: self.end_address,
            name: self.name,
            permission: self.permission,
            data,
        }
    }

    /// The section described in one line: its name in quotes, or `None`, its start and its
    /// size in hexadecimal digits, and its permission.
    pub open spec fn description(&self) -> Seq<char> {
        "Section(name='"@ + (match self.name {
            Some(name) => "Some(\""@ + name@ + "\")"@,
            None => "None"@,
        }) + "', start=0x"@ + spec_hex(self.start_address as nat, 1) + ", sz=0x"@ + spec_hex(
            self.spec_size() as nat,
            1,
        ) + ", permission="@ + self.permission.description() + ")"@
    }

    /// The section described in one line.
    pub fn to_string(&self) -> (s: String)
        requires
            self.wf(),
        ensures
            s@ == self.description(),
    {
        let mut s = String::from_str("Section(name='");
        match &self.name {
            Some(name) => {
                s.append("Some(\"");
                s.append(name.as_str());
                s.append("\")");
            },
            None => {
                s.append("None");
            },
        }
        s.append("', start=0x");
        let start = format_hex(self.start_address, 1);
        s.append(start.as_str());
        s.append(", sz=0x");
        let size = format_hex(self.end_address - self.start_address, 1);
        s.append(size.as_str());
        s.append(", permission=");
        let permission = self.permission.to_string();
        s.append(permission.as_str());
        s.append(")");
        assert(s@ =~= self.description());
        s
    }

    pub fn is_executable(&self) -> (b: bool)
        ensures
            b == self.permission.executable(),
    {
        self.permission.contains(Permission { bits: PERMISSION_EXECUTABLE })
    }

    pub fn is_writable(&self) -> (b: bool)
        ensures
            b == self.permission.writable(),
    {
        self.permission.contains(Permission { bits: PERMISSION_WRITABLE })
    }

    pub fn is_readable(&self) -> (b: bool)
        ensures
            b == self.permission.readable(),
    {
        self.permission.contains(Permission { bits: PERMISSION_READABLE })
    }
}

/// `SectionHeader` of the crate `goblin`: one entry of the section table of an ELF object.
/// Nothing is known of what it holds.
#[verifier::external_type_specification]
#[verifier::external_body]
pub struct ExElfSectionHeader(goblin::elf::section_header::SectionHeader);

/// `Segment` of the crate `goblin`: one segment of a Mach-O image. Nothing is known of what
/// it holds.
#[verifier::external_type_specification]
#[verifier::external_body]
pub struct ExMachSegment<'a>(goblin::mach::segment::Segment<'a>);

/// What is read of a section header of an ELF object.
pub struct ElfSectionValues {
    pub address: u64,
    pub size: u64,
    pub executable: bool,
    pub writable: bool,
}

/// What is read of a segment of a Mach-O image.
pub struct MachSegmentValues {
    pub address: u64,
    pub size: u64,
    pub flags: u32,
    pub name: Vec<u8>,
}

/// Flag of a Mach-O segment that holds nothing but machine instructions.
pub const S_ATTR_PURE_INSTRUCTIONS: u32 = 0x8000_0000;

/// Flag of a Mach-O segment that holds some machine instructions.
pub const S_ATTR_SOME_INSTRUCTIONS: u32 = 0x0000_0400;

/// The fields `sh_addr` and `sh_size` of a `SectionHeader` of the crate `goblin`, with what
/// its methods `is_executable` and `is_writable` answer. Nothing is claimed of the values.
#[verifier::external_body]
fn elf_section_values(header: &goblin::elf::section_header::SectionHeader) -> ElfSectionValues {
    ElfSectionValues {
        address: header.sh_addr,
        size: header.sh_size,
        executable: header.is_executable(),
        writable: header.is_writable(),
    }
}

/// The fields `vmaddr`, `vmsize`, `flags` and `segname` of a `Segment` of the crate
/// `goblin`. Nothing is claimed of the values.
#[verifier::external_body]
fn mach_segment_values(segment: &goblin::mach::segment::Segment) -> MachSegmentValues {
    MachSegmentValues {
        address: segment.vmaddr,
        size: segment.vmsize,
        flags: segment.flags,
        name: segment.segname.to_vec(),
    }
}

/// The section that a section header of an ELF object describes, filled with zeros: code can
/// be read and run, writable data can be read and written. There is none where the section
/// would pass the end of the address space or hold more bytes than a machine can count.
pub open spec fn spec_section_of_elf_values(v: ElfSectionValues) -> Option<SectionModel> {
    if v.size > usize::MAX || v.address + v.size > u64::MAX {
        None
    } else {
        Some(
            SectionModel {
                start_address: v.address,
                end_address: (v.address + v.size) as u64,
                name: None,
                permission: permission_bits(v.executable || v.writable, v.writable, v.executable),
                data: Seq::new(v.size as nat, |i: int| 0u8),
            },
        )
    }
}

/// A text without its NUL characters.
pub open spec fn spec_without_nul(text: Seq<char>) -> Seq<char> {
    text.filter(|c: char| c != '\0')
}

/// The name that the bytes of a segment name spell: the text without its NUL characters, and
/// the empty text where the bytes are no text.
pub open spec fn spec_segment_name(raw: Seq<u8>) -> Seq<char> {
    match spec_name_of(raw) {
        Some(text) => spec_without_nul(text),
        None => Seq::empty(),
    }
}

/// Whether a segment with the flags given may be executed: it may unless it is flagged both
/// as pure instructions and as some instructions.
pub open spec fn spec_segment_executable(flags: u32) -> bool {
    flags & S_ATTR_PURE_INSTRUCTIONS == 0 || flags & S_ATTR_SOME_INSTRUCTIONS == 0
}

/// The section that a segment of a Mach-O image describes, filled with zeros and readable.
/// There is none where the section would pass the end of the address space or hold more
/// bytes than a machine can count.
pub open spec fn spec_section_of_mach_values(v: MachSegmentValues) -> Option<SectionModel> {
    if v.size > usize::MAX || v.address + v.size > u64::MAX {
        None
    } else {
        Some(
            SectionModel {
                start_address: v.address,
                end_address: (v.address + v.size) as u64,
                name: Some(spec_segment_name(v.name@)),
                permission: permission_bits(true, false, spec_segment_executable(v.flags)),
                data: Seq::new(v.size as nat, |i: int| 0u8),
            },
        )
    }
}

/// Whether `r` is what the values read of a section header of an ELF object give: the
/// section that they describe, and nothing where they describe none.
pub open spec fn is_section_of_elf_values(r: Option<Section>, v: ElfSectionValues) -> bool {
    match spec_section_of_elf_values(v) {
        Some(m) => r is Some && r->0@ == m,
        None => r is None,
    }
}

/// Whether `r` is what the values read of a segment of a Mach-O image give: the section that
/// they describe, and nothing where they describe none.
pub open spec fn is_section_of_mach_values(r: Option<Section>, v: MachSegmentValues) -> bool {
    match spec_section_of_mach_values(v) {
        Some(m) => r is Some && r->0@ == m,
        None => r is None,
    }
}

/// A text without its NUL characters.
pub fn without_nul(text: &str) -> (s: String)
    ensures
        s@ == spec_without_nul(text@),
{
    let n: usize = text.unicode_len();
    let mut s = String::new();
    let mut i: usize = 0;
    proof {
        reveal(Seq::filter);
        assert(text@.take(0) =~= Seq::<char>::empty());
    }
    while i < n
        invariant
            i <= n,
            n == text@.len(),
            s@ == spec_without_nul(text@.take(i as int)),
        decreases n - i,
    {
        let c: char = text.get_char(i);
        proof {
            reveal(Seq::filter);
            assert(text@.take(i + 1).drop_last() =~= text@.take(i as int));
            assert(text@.take(i + 1).last() == c);
        }
        if c != '\0' {
            let one = text.substring_char(i, i + 1);
            assert(one@ =~= seq![c]);
            let ghost before = s@;
            s.append(one);
            assert(s@ =~= before.push(c));
        }
        i = i + 1;
    }
    assert(text@.take(n as int) =~= text@);
    s
}

impl Section {
    /// The section that the values read of a section header of an ELF object describe.
    pub fn from_elf_values(v: ElfSectionValues) -> (r: Option<Self>)
        ensures
            match spec_section_of_elf_values(v) {
                Some(m) => r is Some && r->0@ == m,
                None => r is None,
            },
    {
        if v.size > usize::MAX as u64 {
            return None;
        }
        let end_address: u64 = match v.address.checked_add(v.size) {
            Some(end) => end,
            None => {
                return None;
            },
        };
        let sz: usize = v.size as usize;
        let data: Vec<u8> = vec![0u8; sz];
        assert(data@ =~= Seq::new(v.size as nat, |i: int| 0u8));
        Some(
            Section {
                start_address: v.address,
                end_address,
                permission: Permission::new(v.executable || v.writable, v.writable, v.executable),
                name: None,
                data,
            },
        )
    }

    /// The section that a section header of an ELF object describes, as the crate `goblin`
    /// reads it: the section that the values read of the header describe, whatever they are.
    pub fn from_elf_header(header: &goblin::elf::section_header::SectionHeader) -> (r: Option<Self>)
        ensures
            exists|v: ElfSectionValues| #[trigger] is_section_of_elf_values(r, v),
            r is Some ==> r->0.wf() && r->0@.name is None && r->0@.data == Seq::new(
                r->0.spec_size() as nat,
                |i: int| 0u8,
            ),
    {
        let values = elf_section_values(header);
        let r = Section::from_elf_values(values);
        assert(is_section_of_elf_values(r, values));
        r
    }

    /// The section that the values read of a segment of a Mach-O image describe.
    pub fn from_mach_values(v: MachSegmentValues) -> (r: Option<Self>)
        ensures
            match spec_section_of_mach_values(v) {
                Some(m) => r is Some && r->0@ == m,
                None => r is None,
            },
    {
        if v.size > usize::MAX as u64 {
            return None;
        }
        let end_address: u64 = match v.address.checked_add(v.size) {
            Some(end) => end,
            None => {
                return None;
            },
        };
        let executable: bool = v.flags & S_ATTR_PURE_INSTRUCTIONS == 0 || v.flags
            & S_ATTR_SOME_INSTRUCTIONS == 0;
        let ghost raw = v.name@;
        let section_name: String = match name_of(v.name) {
            Some(text) => without_nul(text.as_str()),
            None => String::new(),
        };
        assert(section_name@ == spec_segment_name(raw));
        let sz: usize = v.size as usize;
        let data: Vec<u8> = vec![0u8; sz];
        assert(data@ =~= Seq::new(v.size as nat, |i: int| 0u8));
        Some(
            Section {
                start_address: v.address,
                end_address,
                name: Some(section_name),
                permission: Permission::new(true, false, executable),
                data,
            },
        )
    }

    /// The section that a segment of a Mach-O image describes, as the crate `goblin` reads
    /// it: the section that the values read of the segment describe.
    pub fn from_mach_segment(segment: &goblin::mach::segment::Segment) -> (r: Option<Self>)
        ensures
            exists|v: MachSegmentValues| #[trigger] is_section_of_mach_values(r, v),
            r is Some ==> r->0.wf() && r->0@.name is Some && r->0.permission.readable()
                && !r->0.permission.writable() && r->0@.data == Seq::new(
                r->0.spec_size() as nat,
                |i: int| 0u8,
            ),
    {
        let values = mach_segment_values(segment);
        proof {
            lemma_permission_bits(true, false, spec_segment_executable(values.flags));
        }
        let r = Section::from_mach_values(values);
        assert(is_section_of_mach_values(r, values));
        r
    }
}

} // verus!
