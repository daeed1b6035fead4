//! Disassemblers: what the search asks of one, and the one that works through Capstone.
use vstd::prelude::*;
use vstd::slice::*;
use vstd::string::*;
use capstone::arch::BuildsCapstone;
use capstone::arch::BuildsCapstoneSyntax;
use crate::common::GenericResult;
use crate::cpu::{Cpu, CpuType};
use crate::error::Error;
use crate::gadget::{insns_view, Instruction, InstructionGroup, InstructionModel};
use crate::numbers::{format_decimal, spec_decimal};

verus! {

/// The disassemblers that a session can ask for.
#[derive(Debug, Copy, Clone, PartialEq, Eq, Structural)]
pub enum DisassemblyEngineType {
    Invalid,
    Capstone,
}

impl Default for DisassemblyEngineType {
    fn default() -> (t: Self)
        ensures
            t == DisassemblyEngineType::Invalid,
    {
        DisassemblyEngineType::Invalid
    }
}

/// The instructions lie back to back between the addresses `lo` and `hi`, and each states
/// the number of its bytes.
pub open spec fn laid_out(insns: Seq<InstructionModel>, lo: int, hi: int) -> bool {
    &&& forall|i: int| 0 <= i < insns.len() ==> (#[trigger] insns[i]).wf()
    &&& forall|i: int|
        0 <= i < insns.len() - 1 ==> (#[trigger] insns[i + 1]).address == insns[i].end()
    &&& insns.len() > 0 ==> lo <= insns[0].address && insns.last().end() <= hi
}

/// The bytes of each instruction are those that `code`, loaded at `address`, holds where the
/// instruction lies.
pub open spec fn reads_from(insns: Seq<InstructionModel>, code: Seq<u8>, address: int) -> bool {
    forall|i: int|
        0 <= i < insns.len() ==> (#[trigger] insns[i]).raw == code.subrange(
            insns[i].address - address,
            insns[i].end() - address,
        )
}

/// What a disassembler owes for the instructions it hands back for `code` at `address`:
/// they lie back to back inside the code and hold its bytes.
pub open spec fn is_decoding(insns: Seq<InstructionModel>, code: Seq<u8>, address: int) -> bool {
    &&& laid_out(insns, address, address + code.len())
    &&& reads_from(insns, code, address)
}

/// An answer of a disassembler as contracts speak of it: the instructions by their views.
pub open spec fn answer_view(r: Option<Vec<Instruction>>) -> Option<Seq<InstructionModel>> {
    match r {
        Some(insns) => Some(insns_view(insns@)),
        None => None,
    }
}

/// Every disassembler offers these.
pub trait Disassembler {
    /// What the disassembler answers for `code` at `address`. A disassembler answers the
    /// same whenever it is asked the same; one that says no more of itself answers by some
    /// function of itself, the code and the address.
    open spec fn answer(&self, code: Seq<u8>, address: u64) -> Option<Seq<InstructionModel>> {
        arbitrary::<spec_fn(&Self, Seq<u8>, u64) -> Option<Seq<InstructionModel>>>()(
            self,
            code,
            address,
        )
    }

    /// Decodes `code` as instructions that start at `address`. The disassembler may stop
    /// before the end of the code, and hands back nothing where no instruction decodes.
    fn disassemble(&self, code: &Vec<u8>, address: u64) -> (r: Option<Vec<Instruction>>)
        ensures
            answer_view(r) == self.answer(code@, address),
            r is Some ==> is_decoding(insns_view(r->0@), code@, address as int),
    ;

    fn name(&self) -> String;

    fn id(&self) -> DisassemblyEngineType;
}

/// `Capstone` of the crate `capstone`: a disassembler that is set up for one CPU. Nothing is
/// known of what it holds.
#[verifier::external_type_specification]
#[verifier::external_body]
pub struct ExCapstone(capstone::Capstone);

/// One instruction as Capstone reports it, in plain values.
pub struct DecodedInsn {
    pub address: u64,
    pub bytes: Vec<u8>,
    pub mnemonic: Option<String>,
    pub operands: Option<String>,
    /// The identifiers of the groups that the instruction belongs to.
    pub groups: Vec<u8>,
}

/// One instruction as Capstone reports it, as contracts speak of it.
pub ghost struct DecodedModel {
    pub address: u64,
    pub bytes: Seq<u8>,
    pub mnemonic: Option<Seq<char>>,
    pub operands: Option<Seq<char>>,
    pub groups: Seq<u8>,
}

impl View for DecodedInsn {
    type V = DecodedModel;

    open spec fn view(&self) -> DecodedModel {
        DecodedModel {
            address: self.address,
            bytes: self.bytes@,
            mnemonic: match self.mnemonic {
                Some(m) => Some(m@),
                None => None,
            },
            operands: match self.operands {
                Some(ops) => Some(ops@),
                None => None,
            },
            groups: self.groups@,
        }
    }
}

/// A run of reports, each by its view.
pub open spec fn decoded_view(decoded: Seq<DecodedInsn>) -> Seq<DecodedModel> {
    decoded.map_values(|d: DecodedInsn| d@)
}

/// What Capstone hands back for one request, by its view.
pub open spec fn reports_view(reports: Option<Vec<DecodedInsn>>) -> Option<Seq<DecodedModel>> {
    match reports {
        Some(decoded) => Some(decoded_view(decoded@)),
        None => None,
    }
}

pub const INSN_GRP_JUMP: u8 = 0x01;

pub const INSN_GRP_CALL: u8 = 0x02;

pub const INSN_GRP_RET: u8 = 0x03;

pub const INSN_GRP_INT: u8 = 0x04;

pub const INSN_GRP_IRET: u8 = 0x05;

pub const INSN_GRP_PRIV: u8 = 0x06;

/// The group that one group identifier of Capstone stands for, if it is one of those that
/// matter to the search.
pub open spec fn spec_group_of_id(id: u8) -> Option<InstructionGroup> {
    if id == INSN_GRP_JUMP {
        Some(InstructionGroup::Jump)
    } else if id == INSN_GRP_CALL {
        Some(InstructionGroup::Call)
    } else if id == INSN_GRP_RET {
        Some(InstructionGroup::Ret)
    } else if id == INSN_GRP_PRIV {
        Some(InstructionGroup::Privileged)
    } else if id == INSN_GRP_INT {
        Some(InstructionGroup::Int)
    } else if id == INSN_GRP_IRET {
        Some(InstructionGroup::Iret)
    } else {
        None
    }
}

/// The group of an instruction with the group identifiers given: the one that the last
/// identifier that matters stands for.
pub open spec fn spec_group_of(ids: Seq<u8>) -> InstructionGroup
    decreases ids.len(),
{
    if ids.len() == 0 {
        InstructionGroup::Undefined
    } else {
        match spec_group_of_id(ids.last()) {
            Some(g) => g,
            None => spec_group_of(ids.drop_last()),
        }
    }
}

/// The group of an instruction with the group identifiers given.
pub fn group_of(ids: &Vec<u8>) -> (g: InstructionGroup)
    ensures
        g == spec_group_of(ids@),
{
    let mut insn_group = InstructionGroup::Undefined;
    let mut i: usize = 0;
    assert(ids@.take(0) =~= Seq::<u8>::empty());
    while i < ids.len()
        invariant
            i <= ids@.len(),
            insn_group == spec_group_of(ids@.take(i as int)),
        decreases ids@.len() - i,
    {
        let id: u8 = ids[i];
        assert(ids@.take(i + 1).drop_last() =~= ids@.take(i as int));
        assert(ids@.take(i + 1).last() == id);
        if id == INSN_GRP_JUMP {
            insn_group = InstructionGroup::Jump;
        } else if id == INSN_GRP_CALL {
            insn_group = InstructionGroup::Call;
        } else if id == INSN_GRP_RET {
            insn_group = InstructionGroup::Ret;
        } else if id == INSN_GRP_PRIV {
            insn_group = InstructionGroup::Privileged;
        } else if id == INSN_GRP_INT {
            insn_group = InstructionGroup::Int;
        } else if id == INSN_GRP_IRET {
            insn_group = InstructionGroup::Iret;
        }
        i = i + 1;
    }
    assert(ids@.take(i as int) =~= ids@);
    insn_group
}

/// The instruction that a report of Capstone stands for. A report without mnemonic gives an
/// empty one, and operands that are reported as an empty text are no operands.
pub open spec fn spec_instruction_of(d: DecodedModel) -> InstructionModel {
    InstructionModel {
        size: d.bytes.len(),
        raw: d.bytes,
        address: d.address,
        group: spec_group_of(d.groups),
        mnemonic: match d.mnemonic {
            Some(m) => m,
            None => Seq::empty(),
        },
        operands: match d.operands {
            Some(ops) => if ops.len() > 0 {
                Some(ops)
            } else {
                None
            },
            None => None,
        },
    }
}

/// The instructions that a run of reports stands for, one for one.
pub open spec fn spec_instructions_of(decoded: Seq<DecodedModel>) -> Seq<InstructionModel> {
    decoded.map_values(|d: DecodedModel| spec_instruction_of(d))
}

/// The instruction that a report of Capstone stands for.
pub fn instruction_of(d: &DecodedInsn) -> (insn: Instruction)
    ensures
        insn@ == spec_instruction_of(d@),
{
    let mnemonic = match &d.mnemonic {
        Some(m) => m.clone(),
        None => String::new(),
    };
    let operands: Option<String> = match &d.operands {
        Some(op) => if op.as_str().is_empty() {
            None
        } else {
            Some(op.clone())
        },
        None => None,
    };
    let raw: Vec<u8> = slice_to_vec(d.bytes.as_slice());
    Instruction {
        size: raw.len(),
        raw,
        mnemonic,
        operands,
        address: d.address,
        group: group_of(&d.groups),
    }
}

/// Whether the bytes of `code` from offset `at` on start with `raw`.
fn holds_at(code: &Vec<u8>, at: usize, raw: &Vec<u8>) -> (b: bool)
    requires
        at + raw@.len() <= code@.len(),
    ensures
        b == (raw@ == code@.subrange(at as int, at + raw@.len())),
{
    let mut j: usize = 0;
    while j < raw.len()
        invariant
            j <= raw@.len(),
            at + raw@.len() <= code.len(),
            forall|k: int| 0 <= k < j ==> raw@[k] == code@[at + k],
        decreases raw@.len() - j,
    {
        if raw[j] != code[at + j] {
            assert(code@.subrange(at as int, at + raw@.len())[j as int] == code@[at + j]);
            return false;
        }
        j = j + 1;
    }
    assert(raw@ =~= code@.subrange(at as int, at + raw@.len()));
    true
}

/// Turns the reports of Capstone for `code` at `address` into instructions, and checks that
/// they lie back to back inside the code and hold its bytes. Reports that do not are not
/// taken for a decoding.
pub fn instructions_of(decoded: &Vec<DecodedInsn>, code: &Vec<u8>, address: u64) -> (r: Option<
    Vec<Instruction>,
>)
    ensures
        r is Some <==> is_decoding(
            spec_instructions_of(decoded_view(decoded@)),
            code@,
            address as int,
        ),
        r is Some ==> insns_view(r->0@) == spec_instructions_of(decoded_view(decoded@)),
{
    let ghost models = spec_instructions_of(decoded_view(decoded@));
    let ghost hi = address + code@.len();
    let mut insns: Vec<Instruction> = Vec::new();
    // the offset in the code at which the next instruction has to start
    let mut next: usize = 0;
    let mut i: usize = 0;
    let code_len: usize = code.len();
    while i < decoded.len()
        invariant
            i <= decoded@.len(),
            models == spec_instructions_of(decoded_view(decoded@)),
            code_len == code@.len(),
            hi == address + code_len,
            insns_view(insns@) == models.take(i as int),
            is_decoding(models.take(i as int), code@, address as int),
            next <= code_len,
            i > 0 ==> address + next == models[i - 1].end(),
        decreases decoded@.len() - i,
    {
        let insn = instruction_of(&decoded[i]);
        assert(insn@ == models[i as int]);
        let ghost m = models[i as int];
        let ghost taken = models.take(i + 1);
        // it starts where the one before ended, or not before the code where it is the first
        if insn.address < address || insn.size == 0 {
            proof {
                if is_decoding(models, code@, address as int) {
                    lemma_laid_out_ascends(models, address as int, hi, i as int, i as int);
                }
            }
            return None;
        }
        let offset: u64 = insn.address - address;
        if i > 0 && offset != next as u64 {
            proof {
                assert(models[(i - 1) + 1] == m);
            }
            return None;
        }
        // it ends inside the code
        if offset > code_len as u64 || insn.size > code_len - offset as usize {
            proof {
                if is_decoding(models, code@, address as int) {
                    lemma_laid_out_ascends(models, address as int, hi, i as int, i as int);
                }
            }
            return None;
        }
        if !holds_at(code, offset as usize, &insn.raw) {
            return None;
        }
        next = offset as usize + insn.size;
        let ghost seen = insns_view(insns@);
        insns.push(insn);
        proof {
            assert(insns_view(insns@) =~= seen.push(m));
            assert(seen.push(m) =~= taken);
            assert forall|k: int| 0 <= k < taken.len() - 1 implies (#[trigger] taken[k + 1]).address
                == taken[k].end() by {
                if k + 1 < i {
                    assert(models.take(i as int)[k + 1] == taken[k + 1]);
                }
            }
            assert forall|k: int| 0 <= k < taken.len() implies (#[trigger] taken[k]).wf() by {
                if k < i {
                    assert(models.take(i as int)[k] == taken[k]);
                }
            }
            assert forall|k: int| 0 <= k < taken.len() implies (#[trigger] taken[k]).raw
                == code@.subrange(taken[k].address - address, taken[k].end() - address) by {
                if k < i {
                    assert(models.take(i as int)[k] == taken[k]);
                }
            }
            if i > 0 {
                assert(models.take(i as int)[0] == taken[0]);
            }
        }
        i = i + 1;
    }
    assert(models.take(i as int) =~= models);
    Some(insns)
}

/// What checking the reports of Capstone for `code` at `address` gives: the instructions
/// that the reports stand for, where there is at least one report and the instructions lie
/// back to back inside the code and hold its bytes; nothing where Capstone reports an error,
/// no instruction, or instructions that do not.
pub open spec fn spec_checked_decoding(
    reports: Option<Seq<DecodedModel>>,
    code: Seq<u8>,
    address: u64,
) -> Option<Seq<InstructionModel>> {
    match reports {
        Some(decoded) => if decoded.len() > 0 && is_decoding(
            spec_instructions_of(decoded),
            code,
            address as int,
        ) {
            Some(spec_instructions_of(decoded))
        } else {
            None
        },
        None => None,
    }
}

/// Checks what Capstone reports for `code` at `address`, and turns it into instructions.
pub fn checked_decoding(reports: &Option<Vec<DecodedInsn>>, code: &Vec<u8>, address: u64) -> (r:
    Option<Vec<Instruction>>)
    ensures
        answer_view(r) == spec_checked_decoding(reports_view(*reports), code@, address),
{
    match reports {
        Some(decoded) => {
            // Any instruction?
            if decoded.len() == 0 {
                return None;
            }
            instructions_of(decoded, code, address)
        },
        None => None,
    }
}

/// In a run that is laid out, a later instruction ends no earlier than an earlier one.
pub proof fn lemma_laid_out_ascends(insns: Seq<InstructionModel>, lo: int, hi: int, i: int, j: int)
    requires
        laid_out(insns, lo, hi),
        0 <= i <= j < insns.len(),
    ensures
        insns[i].end() <= insns[j].end(),
        insns[i].address <= insns[j].address,
        i < j ==> insns[i].end() <= insns[j].address,
        lo <= insns[i].address,
        insns[j].end() <= hi,
    decreases j - i,
{
    if i < j {
        lemma_laid_out_ascends(insns, lo, hi, i + 1, j);
        assert(insns[i + 1].address == insns[i].end());
    }
    if 0 < i {
        lemma_laid_out_ascends_from_first(insns, lo, hi, i);
    }
    if j < insns.len() - 1 {
        lemma_laid_out_ascends_to_last(insns, lo, hi, j);
    }
}

proof fn lemma_laid_out_ascends_from_first(insns: Seq<InstructionModel>, lo: int, hi: int, i: int)
    requires
        laid_out(insns, lo, hi),
        0 <= i < insns.len(),
    ensures
        lo <= insns[i].address,
    decreases i,
{
    if i > 0 {
        lemma_laid_out_ascends_from_first(insns, lo, hi, i - 1);
        assert(insns[(i - 1) + 1].address == insns[i - 1].end());
    }
}

proof fn lemma_laid_out_ascends_to_last(insns: Seq<InstructionModel>, lo: int, hi: int, j: int)
    requires
        laid_out(insns, lo, hi),
        0 <= j < insns.len(),
    ensures
        insns[j].end() <= hi,
    decreases insns.len() - j,
{
    if j < insns.len() - 1 {
        lemma_laid_out_ascends_to_last(insns, lo, hi, j + 1);
        assert(insns[j + 1].address == insns[j].end());
    }
}

/// `Capstone::new().x86().mode(Mode32).syntax(Intel).detail(true).build()` of the crate
/// `capstone`: a disassembler for 32-bit x86 that prints Intel syntax and reports the groups
/// of each instruction. Nothing where Capstone refuses to build one.
#[verifier::external_body]
fn capstone_x86() -> Option<capstone::Capstone> {
    capstone::Capstone::new()
        .x86()
        .mode(capstone::arch::x86::ArchMode::Mode32)
        .syntax(capstone::arch::x86::ArchSyntax::Intel)
        .detail(true)
        .build()
        .ok()
}

/// `Capstone::new().x86().mode(Mode64).syntax(Intel).detail(true).build()` of the crate
/// `capstone`: a disassembler for x86-64 that prints Intel syntax and reports the groups of
/// each instruction. Nothing where Capstone refuses to build one.
#[verifier::external_body]
fn capstone_x64() -> Option<capstone::Capstone> {
    capstone::Capstone::new()
        .x86()
        .mode(capstone::arch::x86::ArchMode::Mode64)
        .syntax(capstone::arch::x86::ArchSyntax::Intel)
        .detail(true)
        .build()
        .ok()
}

/// `Capstone::new().arm().mode(Arm).detail(true).build()` of the crate `capstone`: a
/// disassembler for 32-bit ARM that reports the groups of each instruction. Nothing where
/// Capstone refuses to build one.
#[verifier::external_body]
fn capstone_arm() -> Option<capstone::Capstone> {
    capstone::Capstone::new()
        .arm()
        .mode(capstone::arch::arm::ArchMode::Arm)
        .detail(true)
        .build()
        .ok()
}

/// `Capstone::new().arm64().mode(Arm).detail(true).build()` of the crate `capstone`: a
/// disassembler for ARM64 that reports the groups of each instruction. Nothing where
/// Capstone refuses to build one.
#[verifier::external_body]
fn capstone_arm64() -> Option<capstone::Capstone> {
    capstone::Capstone::new()
        .arm64()
        .mode(capstone::arch::arm64::ArchMode::Arm)
        .detail(true)
        .build()
        .ok()
}

/// What Capstone, set up for the CPU of the type given as this library sets it up, reports
/// for `code` at `address`: nothing where it reports an error, else the instructions that
/// it decodes, each with its address, its bytes, its mnemonic, its operands and the
/// identifiers of its groups.
pub uninterp spec fn capstone_reports(cpu: CpuType, code: Seq<u8>, address: u64) -> Option<
    Seq<DecodedModel>,
>;

/// `Capstone::disasm_all` of the crate `capstone`, with `Capstone::insn_detail` for the
/// groups of each instruction: what Capstone decodes of `code` at `address`, each
/// instruction copied out as plain values. Nothing where either call reports an error.
///
/// Capstone decodes by the CPU that it was set up for, the code and the address, and by
/// nothing else; a disassembler of this library holds the Capstone that was set up for its
/// CPU. That is all that is claimed: what Capstone decodes is not stated.
#[verifier::external_body]
fn capstone_decode(d: &CapstoneDisassembler, code: &Vec<u8>, address: u64) -> (r: Option<
    Vec<DecodedInsn>,
>)
    ensures
        reports_view(r) == capstone_reports(d.cpu, code@, address),
{
    let cs_insns = d.cs.disasm_all(code, address).ok()?;
    let mut out = Vec::with_capacity(cs_insns.len());
    for cs_insn in cs_insns.iter() {
        out.push(DecodedInsn {
            address: cs_insn.address(),
            bytes: cs_insn.bytes().to_vec(),
            mnemonic: cs_insn.mnemonic().map(|m| m.to_string()),
            operands: cs_insn.op_str().map(|op| op.to_string()),
            groups: d.cs.insn_detail(cs_insn).ok()?.groups().iter().map(|g| g.0).collect(),
        });
    }
    Some(out)
}

/// What the disassembler that works through Capstone answers for `code` at `address` when
/// it is set up for the CPU of the type given: what checking the reports of Capstone gives.
pub open spec fn spec_capstone_answer(cpu: CpuType, code: Seq<u8>, address: u64) -> Option<
    Seq<InstructionModel>,
> {
    spec_checked_decoding(capstone_reports(cpu, code, address), code, address)
}

/// `Capstone::lib_version` of the crate `capstone`: the major and the minor version of the
/// Capstone library that the process runs with.
#[verifier::external_body]
fn capstone_version() -> (u32, u32) {
    capstone::Capstone::lib_version()
}

/// The name of the Capstone engine of the version given.
pub open spec fn spec_capstone_name(major: u32, minor: u32) -> Seq<char> {
    "Capstone-Engine("@ + spec_decimal(major as nat) + "."@ + spec_decimal(minor as nat) + ")"@
}

/// Whether `name` is the name of the Capstone engine of some version.
pub open spec fn is_capstone_name(name: Seq<char>) -> bool {
    exists|major: u32, minor: u32| name == #[trigger] spec_capstone_name(major, minor)
}

/// The name of the Capstone engine of the version given.
pub fn capstone_name(major: u32, minor: u32) -> (name: String)
    ensures
        name@ == spec_capstone_name(major, minor),
{
    let mut name = String::from_str("Capstone-Engine(");
    let digits = format_decimal(major as u64);
    name.append(digits.as_str());
    name.append(".");
    let digits = format_decimal(minor as u64);
    name.append(digits.as_str());
    name.append(")");
    name
}

/// The disassembler that works through Capstone: a Capstone that was set up for one CPU,
/// and the type of that CPU.
pub struct CapstoneDisassembler {
    cs: capstone::Capstone,
    cpu: CpuType,
}

impl CapstoneDisassembler {
    /// The type of the CPU that the disassembler is set up for.
    pub closed spec fn spec_cpu_type(&self) -> CpuType {
        self.cpu
    }

    /// A disassembler for the CPU given. There is none for a CPU of unknown type, and none
    /// where Capstone refuses to build one.
    pub fn new<C: Cpu>(cpu: &C) -> (r: GenericResult<Self>)
        ensures
            cpu.profile().cpu_type == CpuType::Unknown ==> r is Err,
            r is Err ==> r->Err_0 == if cpu.profile().cpu_type == CpuType::Unknown {
                Error::UnsupportedCpuError
            } else {
                Error::GenericError("Failed to create Capstone object")
            },
            r is Ok ==> r->Ok_0.spec_cpu_type() == cpu.profile().cpu_type,
    {
        let cpu_type = cpu.cpu_type();
        let built = match cpu_type {
            CpuType::X86 => capstone_x86(),
            CpuType::X64 => capstone_x64(),
            CpuType::ARM => capstone_arm(),
            CpuType::ARM64 => capstone_arm64(),
            CpuType::Unknown => {
                return Err(Error::UnsupportedCpuError);
            },
        };
        match built {
            Some(cs) => Ok(CapstoneDisassembler { cs, cpu: cpu_type }),
            None => Err(Error::GenericError("Failed to create Capstone object")),
        }
    }

    /// The label of the disassembler, made of its name: the name of the Capstone engine of
    /// the version that the Capstone library reports.
    pub fn to_string(&self) -> (s: String)
        ensures
            exists|name: Seq<char>|
                is_capstone_name(name) && s@ == #[trigger] spec_disassembler_label(name),
    {
        disassembler_label(self.name())
    }

    /// What Capstone decodes of `code` at `address`, checked to lie back to back inside the
    /// code and to hold its bytes. Nothing where Capstone decodes no instruction.
    fn cs_disassemble(&self, code: &Vec<u8>, address: u64) -> (r: Option<Vec<Instruction>>)
        ensures
            answer_view(r) == spec_capstone_answer(self.spec_cpu_type(), code@, address),
            r is Some ==> r->0@.len() > 0 && is_decoding(insns_view(r->0@), code@, address as int),
    {
        let reports = capstone_decode(self, code, address);
        checked_decoding(&reports, code, address)
    }
}

impl Disassembler for CapstoneDisassembler {
    /// What checking the reports of Capstone gives.
    open spec fn answer(&self, code: Seq<u8>, address: u64) -> Option<Seq<InstructionModel>> {
        spec_capstone_answer(self.spec_cpu_type(), code, address)
    }

    /// What checking the reports of Capstone for `code` at `address` gives: at least one
    /// instruction, or nothing.
    fn disassemble(&self, code: &Vec<u8>, address: u64) -> (r: Option<Vec<Instruction>>)
        ensures
            r is Some ==> r->0@.len() > 0,
    {
        self.cs_disassemble(code, address)
    }

    /// The name of the Capstone engine of the version that the Capstone library reports.
    fn name(&self) -> (name: String)
        ensures
            is_capstone_name(name@),
    {
        let version = capstone_version();
        let name = capstone_name(version.0, version.1);
        assert(name@ == spec_capstone_name(version.0, version.1));
        name
    }

    fn id(&self) -> (id: DisassemblyEngineType)
        ensures
            id == DisassemblyEngineType::Capstone,
    {
        DisassemblyEngineType::Capstone
    }
}

/// The disassembler of one worker.
pub struct DisassemblyEngine {
    pub disassembler: CapstoneDisassembler,
}

impl DisassemblyEngine {
    /// The engine of the type asked for, set up for the CPU given.
    pub fn new<C: Cpu>(engine_type: &DisassemblyEngineType, cpu: &C) -> (r: GenericResult<Self>)
        ensures
            *engine_type == DisassemblyEngineType::Invalid ==> r is Err && r->Err_0
                == Error::GenericError("Invalid disassembly engine"),
            *engine_type == DisassemblyEngineType::Capstone && cpu.profile().cpu_type
                == CpuType::Unknown ==> r is Err && r->Err_0 == Error::UnsupportedCpuError,
            r is Ok ==> *engine_type == DisassemblyEngineType::Capstone
                && r->Ok_0.disassembler.spec_cpu_type() == cpu.profile().cpu_type,
    {
        match engine_type {
            DisassemblyEngineType::Capstone => match CapstoneDisassembler::new(cpu) {
                Ok(disassembler) => Ok(DisassemblyEngine { disassembler }),
                Err(e) => Err(e),
            },
            DisassemblyEngineType::Invalid => Err(Error::GenericError("Invalid disassembly engine")),
        }
    }

    /// The label of the engine, made of the name that its disassembler gives: the name of
    /// the Capstone engine of the version that the Capstone library reports.
    pub fn to_string(&self) -> (s: String)
        ensures
            exists|name: Seq<char>|
                is_capstone_name(name) && s@ == #[trigger] spec_engine_label(name),
    {
        engine_label(self.disassembler.name())
    }
}

/// The label of the disassembler of the name given.
pub open spec fn spec_disassembler_label(name: Seq<char>) -> Seq<char> {
    "Disassembler("@ + name + ")"@
}

/// The label of the disassembler of the name given.
pub fn disassembler_label(name: String) -> (s: String)
    ensures
        s@ == spec_disassembler_label(name@),
{
    let mut s = String::from_str("Disassembler(");
    s.append(name.as_str());
    s.append(")");
    s
}

/// The label of the engine whose disassembler has the name given.
pub open spec fn spec_engine_label(name: Seq<char>) -> Seq<char> {
    "Engine("@ + name + ")"@
}

/// The label of the engine whose disassembler has the name given.
pub fn engine_label(name: String) -> (s: String)
    ensures
        s@ == spec_engine_label(name@),
{
    let mut s = String::from_str("Engine(");
    s.append(name.as_str());
    s.append(")");
    s
}

/// The sizes of a run that is laid out add up to the distance from its start to its end.
pub proof fn lemma_laid_out_size(insns: Seq<InstructionModel>, lo: int, hi: int)
    requires
        laid_out(insns, lo, hi),
        insns.len() > 0,
    ensures
        crate::gadget::total_size(insns) == insns.last().end() - insns[0].address,
    decreases insns.len(),
{
    if insns.len() > 1 {
        let head = insns.drop_last();
        assert(laid_out(head, lo, hi)) by {
            assert forall|i: int| 0 <= i < head.len() implies (#[trigger] head[i]).wf() by {
                assert(head[i] == insns[i]);
            }
            assert forall|i: int| 0 <= i < head.len() - 1 implies (#[trigger] head[i + 1]).address
                == head[i].end() by {
                assert(head[i + 1] == insns[i + 1]);
                assert(head[i] == insns[i]);
            }
            lemma_laid_out_ascends(insns, lo, hi, 0, insns.len() - 2);
            assert(head.last() == insns[insns.len() - 2]);
            assert(head[0] == insns[0]);
        }
        lemma_laid_out_size(head, lo, hi);
        assert(insns[(insns.len() - 2) + 1].address == insns[insns.len() - 2].end());
    } else {
        assert(crate::gadget::total_size(insns.drop_last()) == 0);
    }
}

/// The bytes of a run that is laid out in `data`, loaded at `base`, are the bytes that
/// `data` holds from the start of the run to its end.
pub proof fn lemma_laid_out_bytes(
    insns: Seq<InstructionModel>,
    lo: int,
    hi: int,
    data: Seq<u8>,
    base: int,
)
    requires
        laid_out(insns, lo, hi),
        reads_from(insns, data, base),
        insns.len() > 0,
        base <= lo,
        hi <= base + data.len(),
    ensures
        crate::gadget::concat_raw(insns) == data.subrange(
            insns[0].address - base,
            insns.last().end() - base,
        ),
    decreases insns.len(),
{
    let last = insns.last();
    lemma_laid_out_ascends(insns, lo, hi, 0, insns.len() - 1);
    if insns.len() > 1 {
        let head = insns.drop_last();
        assert(laid_out(head, lo, hi)) by {
            assert forall|i: int| 0 <= i < head.len() implies (#[trigger] head[i]).wf() by {
                assert(head[i] == insns[i]);
            }
            assert forall|i: int| 0 <= i < head.len() - 1 implies (#[trigger] head[i + 1]).address
                == head[i].end() by {
                assert(head[i + 1] == insns[i + 1]);
                assert(head[i] == insns[i]);
            }
            lemma_laid_out_ascends(insns, lo, hi, 0, insns.len() - 2);
            assert(head.last() == insns[insns.len() - 2]);
            assert(head[0] == insns[0]);
        }
        assert(reads_from(head, data, base)) by {
            assert forall|i: int| 0 <= i < head.len() implies (#[trigger] head[i]).raw
                == data.subrange(head[i].address - base, head[i].end() - base) by {
                assert(head[i] == insns[i]);
            }
        }
        lemma_laid_out_bytes(head, lo, hi, data, base);
        lemma_laid_out_ascends(insns, lo, hi, 0, insns.len() - 2);
        assert(insns[(insns.len() - 2) + 1].address == insns[insns.len() - 2].end());
        assert(head.last() == insns[insns.len() - 2]);
        assert(head[0] == insns[0]);
        assert(data.subrange(insns[0].address - base, head.last().end() - base) + data.subrange(
            last.address - base,
            last.end() - base,
        ) =~= data.subrange(insns[0].address - base, last.end() - base));
    } else {
        assert(crate::gadget::concat_raw(insns.drop_last()) =~= Seq::<u8>::empty());
        assert(Seq::<u8>::empty() + last.raw =~= last.raw);
    }
}

} // verus!
