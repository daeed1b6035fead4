//! The containers that binaries come in, and what is read of them: the CPU, the entry point
//! and the sections that may be executed.
use vstd::prelude::*;
use vstd::slice::*;
use vstd::string::*;
use vstd::utf8::*;
use crate::common::GenericResult;
use crate::cpu::{cpu_of, spec_cpu_of, AnyCpu, CpuType};
use crate::error::Error;
use crate::numbers::{format_decimal, spec_decimal};
use crate::section::{sections_view, Section, SectionModel};

pub mod elf;
pub mod mach;
pub mod pe;

verus! {

/// Whether the `n` bytes from offset `off` on all lie inside `bytes`.
pub open spec fn in_file(bytes: Seq<u8>, off: int, n: int) -> bool {
    0 <= off && off + n <= bytes.len()
}

/// The two bytes at `off`, read as a little-endian number.
pub open spec fn spec_u16_le(bytes: Seq<u8>, off: int) -> int {
    bytes[off] + 0x100 * bytes[off + 1]
}

/// The four bytes at `off`, read as a little-endian number.
pub open spec fn spec_u32_le(bytes: Seq<u8>, off: int) -> int {
    bytes[off] + 0x100 * bytes[off + 1] + 0x1_0000 * bytes[off + 2] + 0x100_0000 * bytes[off + 3]
}

/// The eight bytes at `off`, read as a little-endian number.
pub open spec fn spec_u64_le(bytes: Seq<u8>, off: int) -> int {
    spec_u32_le(bytes, off) + 0x1_0000_0000 * spec_u32_le(bytes, off + 4)
}

/// The text that a run of bytes spells, if it is UTF-8.
pub open spec fn spec_name_of(raw: Seq<u8>) -> Option<Seq<char>> {
    if valid_utf8(raw) {
        Some(decode_utf8(raw))
    } else {
        None
    }
}

pub fn read_u16_le(bytes: &[u8], off: usize) -> (r: Option<u16>)
    ensures
        r is Some <==> in_file(bytes@, off as int, 2),
        r is Some ==> r->0 == spec_u16_le(bytes@, off as int),
{
    if bytes.len() < 2 || off > bytes.len() - 2 {
        return None;
    }
    let b0: u16 = bytes[off] as u16;
    let b1: u16 = bytes[off + 1] as u16;
    Some(b0 + 0x100 * b1)
}

pub fn read_u32_le(bytes: &[u8], off: usize) -> (r: Option<u32>)
    ensures
        r is Some <==> in_file(bytes@, off as int, 4),
        r is Some ==> r->0 == spec_u32_le(bytes@, off as int),
{
    if bytes.len() < 4 || off > bytes.len() - 4 {
        return None;
    }
    let b0: u32 = bytes[off] as u32;
    let b1: u32 = bytes[off + 1] as u32;
    let b2: u32 = bytes[off + 2] as u32;
    let b3: u32 = bytes[off + 3] as u32;
    Some(b0 + 0x100 * b1 + 0x1_0000 * b2 + 0x100_0000 * b3)
}

pub fn read_u64_le(bytes: &[u8], off: usize) -> (r: Option<u64>)
    ensures
        r is Some <==> in_file(bytes@, off as int, 8),
        r is Some ==> r->0 == spec_u64_le(bytes@, off as int),
{
    if bytes.len() < 8 || off > bytes.len() - 8 {
        return None;
    }
    let lo: Option<u32> = read_u32_le(bytes, off);
    let hi: Option<u32> = read_u32_le(bytes, off + 4);
    match (lo, hi) {
        (Some(l), Some(h)) => Some(l as u64 + 0x1_0000_0000 * (h as u64)),
        _ => None,
    }
}

/// A copy of the bytes from `off` up to `off + n`, if they all lie inside `bytes`.
pub fn read_bytes(bytes: &[u8], off: usize, n: usize) -> (r: Option<Vec<u8>>)
    ensures
        r is Some <==> in_file(bytes@, off as int, n as int),
        r is Some ==> r->0@ == bytes@.subrange(off as int, off + n),
{
    if bytes.len() < n || off > bytes.len() - n {
        return None;
    }
    Some(slice_to_vec(slice_subrange(bytes, off, off + n)))
}

/// `String::from_utf8` of the standard library: the text that the bytes spell when they are
/// well-formed UTF-8, nothing otherwise.
#[verifier::external_body]
fn string_from_utf8(raw: Vec<u8>) -> (r: Option<String>)
    ensures
        r is Some <==> valid_utf8(raw@),
        r is Some ==> r->0@ == decode_utf8(raw@),
{
    String::from_utf8(raw).ok()
}

/// The name that a run of bytes spells, if it is UTF-8.
pub fn name_of(raw: Vec<u8>) -> (r: Option<String>)
    ensures
        r is Some <==> spec_name_of(raw@) is Some,
        r is Some ==> r->0@ == spec_name_of(raw@)->0,
{
    string_from_utf8(raw)
}

/// A loaded image as mathematical values: its executable sections, its entry point and its
/// CPU.
pub struct ImageModel {
    pub sections: Seq<SectionModel>,
    pub entry_point: u64,
    pub cpu_type: CpuType,
}

/// The sections of `all` that may be executed, in their order.
pub open spec fn executable_only(all: Seq<SectionModel>) -> Seq<SectionModel> {
    all.filter(|s: SectionModel| s.executable())
}

pub proof fn lemma_executable_only_empty()
    ensures
        executable_only(Seq::<SectionModel>::empty()) == Seq::<SectionModel>::empty(),
{
    reveal(Seq::filter);
}

/// Filtering a run of sections keeps or drops its first one and filters the rest.
pub proof fn lemma_executable_only_cons(s: Seq<SectionModel>)
    requires
        s.len() > 0,
    ensures
        executable_only(s) == if s[0].executable() {
            seq![s[0]] + executable_only(s.drop_first())
        } else {
            executable_only(s.drop_first())
        },
{
    let pred = |x: SectionModel| x.executable();
    assert(s =~= seq![s[0]] + s.drop_first());
    Seq::filter_distributes_over_add(seq![s[0]], s.drop_first(), pred);
    reveal_with_fuel(Seq::filter, 3);
    assert(seq![s[0]].drop_last() =~= Seq::<SectionModel>::empty());
    assert(seq![s[0]].filter(pred) =~= if s[0].executable() {
        seq![s[0]]
    } else {
        Seq::<SectionModel>::empty()
    });
    assert(Seq::<SectionModel>::empty() + executable_only(s.drop_first()) =~= executable_only(
        s.drop_first(),
    ));
}

/// Keeps the sections that may be executed, in their order.
pub fn keep_executable(sections: Vec<Section>) -> (kept: Vec<Section>)
    ensures
        sections_view(kept@) == executable_only(sections_view(sections@)),
{
    let mut sections = sections;
    let ghost all = sections_view(sections@);
    // the last one first
    let mut reversed: Vec<Section> = Vec::new();
    proof {
        lemma_executable_only_empty();
        assert(all.skip(all.len() as int) =~= Seq::<SectionModel>::empty());
        assert(all.take(all.len() as int) =~= all);
        assert(sections_view(reversed@).reverse() =~= Seq::<SectionModel>::empty());
    }
    while sections.len() > 0
        invariant
            sections_view(sections@) == all.take(sections@.len() as int),
            sections@.len() <= all.len(),
            sections_view(reversed@).reverse() == executable_only(all.skip(sections@.len() as int)),
        decreases sections@.len(),
    {
        let ghost n = sections@.len() as int;
        let ghost rev = sections_view(reversed@);
        let ghost prev = sections@;
        let last = sections.pop();
        assert(sections@ == prev.subrange(0, n - 1));
        assert(sections_view(sections@) =~= all.take(n - 1));
        match last {
            Some(sec) => {
                assert(sec == prev[n - 1]);
                assert(sec@ == sections_view(prev)[n - 1]);
                assert(sec@ == all[n - 1]);
                proof {
                    lemma_executable_only_cons(all.skip(n - 1));
                    assert(all.skip(n - 1).drop_first() =~= all.skip(n));
                }
                if sec.is_executable() {
                    reversed.push(sec);
                    assert(sections_view(reversed@) =~= rev.push(sec@));
                    assert(rev.push(sec@).reverse() =~= seq![sec@] + rev.reverse());
                }
            },
            None => {},
        }
    }
    let mut kept: Vec<Section> = Vec::new();
    let ghost revs = sections_view(reversed@);
    proof {
        assert(all.skip(0) =~= all);
        assert(revs.take(revs.len() as int) =~= revs);
        assert(sections_view(kept@) =~= revs.skip(revs.len() as int).reverse());
    }
    while reversed.len() > 0
        invariant
            sections_view(reversed@) == revs.take(reversed@.len() as int),
            reversed@.len() <= revs.len(),
            sections_view(kept@) == revs.skip(reversed@.len() as int).reverse(),
        decreases reversed@.len(),
    {
        let ghost n = reversed@.len() as int;
        let ghost prev = reversed@;
        let ghost k = sections_view(kept@);
        let last = reversed.pop();
        assert(sections_view(reversed@) =~= revs.take(n - 1));
        match last {
            Some(sec) => {
                assert(sec@ == sections_view(prev)[n - 1]);
                kept.push(sec);
                assert(sections_view(kept@) =~= k.push(sec@));
                assert(k.push(sec@) =~= revs.skip(n - 1).reverse());
            },
            None => {},
        }
    }
    assert(revs.skip(0) =~= revs);
    kept
}

/// Walks the section table of a loaded object, one entry at each call of `next`.
pub struct SectionIterator<'a, T> {
    pub index: usize,
    pub obj: &'a T,
}

impl<'a, T> SectionIterator<'a, T> {
    /// The index of the entry that the next call of `next` reads.
    pub open spec fn position(&self) -> nat {
        self.index as nat
    }
}

/// A binary in one of the containers that can be loaded.
#[derive(Debug)]
pub enum FileFormat {
    Pe(pe::Pe),
    Elf(elf::Elf),
}

/// What loading `bytes` gives: the image of the container that the first bytes announce.
pub open spec fn spec_load(bytes: Seq<u8>) -> Result<ImageModel, Error> {
    if bytes.len() < 4 {
        Err(Error::InvalidFileError)
    } else if pe::has_dos_magic(bytes) {
        pe::spec_load_pe(bytes)
    } else if elf::has_elf_magic(bytes) {
        elf::spec_load_elf(bytes)
    } else {
        Err(Error::InvalidMagicParsingError)
    }
}

/// A binary described in one line: the name of its container in quotes, the number of its
/// executable sections, its CPU, and its entry point in decimal digits.
pub open spec fn spec_describe_format(format: Seq<char>, image: ImageModel) -> Seq<char> {
    "ExecutableFileFormat { format: \""@ + format + "\", executable_sections: "@ + spec_decimal(
        image.sections.len(),
    ) + ", cpu_type: "@ + image.cpu_type.spec_name() + ", entry_point: "@ + spec_decimal(
        image.entry_point as nat,
    ) + " }"@
}

/// What every loaded container offers to the search.
pub trait ExecutableFileFormat {
    /// The image as mathematical values.
    spec fn model(&self) -> ImageModel;

    /// The short name of the container.
    spec fn spec_format(&self) -> Seq<char>;

    /// The short name of the container.
    fn format(&self) -> (name: &'static str)
        ensures
            name@ == self.spec_format(),
    ;

    /// The sections that may be executed, in the order of the section table.
    fn executable_sections(&self) -> (sections: &Vec<Section>)
        ensures
            sections_view(sections@) == self.model().sections,
    ;

    fn cpu_type(&self) -> (t: CpuType)
        ensures
            t == self.model().cpu_type,
    ;

    fn entry_point(&self) -> (address: u64)
        ensures
            address == self.model().entry_point,
    ;

    /// The binary described in one line.
    fn describe(&self) -> (s: String)
        ensures
            s@ == spec_describe_format(self.spec_format(), self.model()),
    {
        let mut s = String::from_str("ExecutableFileFormat { format: \"");
        s.append(self.format());
        s.append("\", executable_sections: ");
        let count = format_decimal(self.executable_sections().len() as u64);
        s.append(count.as_str());
        s.append(", cpu_type: ");
        let cpu_type = self.cpu_type().to_string();
        s.append(cpu_type.as_str());
        s.append(", entry_point: ");
        let entry = format_decimal(self.entry_point());
        s.append(entry.as_str());
        s.append(" }");
        s
    }

    /// The CPU that the binary is made for, if there is a profile for it.
    fn cpu(&self) -> (cpu: Option<AnyCpu>)
        ensures
            cpu == spec_cpu_of(self.model().cpu_type),
    {
        cpu_of(self.cpu_type())
    }
}

impl FileFormat {
    /// Loads a binary, as the container that its first bytes announce.
    pub fn parse(buf: Vec<u8>) -> (r: GenericResult<FileFormat>)
        ensures
            match spec_load(buf@) {
                Ok(m) => r is Ok && r->Ok_0.model() == m && (r->Ok_0 is Pe <==> pe::has_dos_magic(
                    buf@,
                )),
                Err(e) => r is Err && r->Err_0 == e,
            },
    {
        if buf.len() < 4 {
            return Err(Error::InvalidFileError);
        }
        if buf[0] == 0x4d && buf[1] == 0x5a {
            match pe::Pe::new(buf.as_slice()) {
                Ok(pe) => Ok(FileFormat::Pe(pe)),
                Err(e) => Err(e),
            }
        } else if buf[0] == 0x7f && buf[1] == 0x45 && buf[2] == 0x4c && buf[3] == 0x46 {
            match elf::Elf::new(buf) {
                Ok(elf) => Ok(FileFormat::Elf(elf)),
                Err(e) => Err(e),
            }
        } else {
            Err(Error::InvalidMagicParsingError)
        }
    }
}

impl ExecutableFileFormat for FileFormat {
    open spec fn model(&self) -> ImageModel {
        match self {
            FileFormat::Pe(pe) => pe@,
            FileFormat::Elf(elf) => elf@,
        }
    }

    open spec fn spec_format(&self) -> Seq<char> {
        match self {
            FileFormat::Pe(pe) => pe.spec_format(),
            FileFormat::Elf(elf) => elf.spec_format(),
        }
    }

    fn format(&self) -> (name: &'static str) {
        match self {
            FileFormat::Pe(pe) => pe.format(),
            FileFormat::Elf(elf) => elf.format(),
        }
    }

    fn executable_sections(&self) -> (sections: &Vec<Section>) {
        match self {
            FileFormat::Pe(pe) => pe.executable_sections(),
            FileFormat::Elf(elf) => elf.executable_sections(),
        }
    }

    fn cpu_type(&self) -> (t: CpuType) {
        match self {
            FileFormat::Pe(pe) => pe.cpu_type(),
            FileFormat::Elf(elf) => elf.cpu_type(),
        }
    }

    fn entry_point(&self) -> (address: u64) {
        match self {
            FileFormat::Pe(pe) => pe.entry_point(),
            FileFormat::Elf(elf) => elf.entry_point(),
        }
    }
}

} // verus!
