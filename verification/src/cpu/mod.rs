//! The CPU profiles: for each CPU that can be searched for, the width of its pointers, the
//! stride of its instructions, how far a gadget may reach back from its terminator, and the
//! patterns of the bytes that returns, calls and jumps start with.
use vstd::prelude::*;
use vstd::string::*;
use crate::cpu::arm::{Arm, Arm64};
use crate::cpu::x86::{X64, X86};
use crate::numbers::{format_decimal, spec_decimal};

pub mod arm;
pub mod x86;

verus! {

#[derive(Debug, Copy, Clone, PartialEq, Eq, PartialOrd, Ord, Structural)]
pub enum CpuType {
    Unknown,
    X86,
    X64,
    ARM,
    ARM64,
}

impl Default for CpuType {
    fn default() -> (t: Self)
        ensures
            t == CpuType::Unknown,
    {
        CpuType::Unknown
    }
}

impl CpuType {
    pub open spec fn spec_name(self) -> Seq<char> {
        match self {
            CpuType::Unknown => "Unknown"@,
            CpuType::X86 => "X86"@,
            CpuType::X64 => "X64"@,
            CpuType::ARM => "ARM"@,
            CpuType::ARM64 => "ARM64"@,
        }
    }

    /// The tag as text, spelled as the variant is.
    pub fn to_string(&self) -> (s: String)
        ensures
            s@ == self.spec_name(),
    {
        match self {
            CpuType::Unknown => String::from_str("Unknown"),
            CpuType::X86 => String::from_str("X86"),
            CpuType::X64 => String::from_str("X64"),
            CpuType::ARM => String::from_str("ARM"),
            CpuType::ARM64 => String::from_str("ARM64"),
        }
    }
}

/// One terminator pattern as mathematical values: the opcode bytes, then the mask bytes.
pub type PatternModel = (Seq<u8>, Seq<u8>);

/// A pattern has as many mask bytes as opcode bytes, at least one of each, and no opcode bit
/// set where the mask is clear.
pub open spec fn pattern_wf(p: PatternModel) -> bool {
    &&& p.0.len() == p.1.len()
    &&& p.0.len() > 0
    &&& forall|i: int| 0 <= i < p.0.len() ==> #[trigger] p.0[i] & !p.1[i] == 0
}

pub open spec fn patterns_wf(ps: Seq<PatternModel>) -> bool {
    forall|k: int| 0 <= k < ps.len() ==> pattern_wf(#[trigger] ps[k])
}

/// The models of a run of patterns, one for one.
pub open spec fn patterns_view(patterns: Seq<(Vec<u8>, Vec<u8>)>) -> Seq<PatternModel> {
    patterns.map_values(|p: (Vec<u8>, Vec<u8>)| (p.0@, p.1@))
}

/// What a CPU profile holds, as mathematical values.
pub struct CpuProfile {
    pub cpu_type: CpuType,
    pub ptrsize: nat,
    pub insn_step: nat,
    pub max_rewind_size: nat,
    pub returns: Seq<PatternModel>,
    pub calls: Seq<PatternModel>,
    pub jumps: Seq<PatternModel>,
}

impl CpuProfile {
    /// The profile described in one line: the type of the CPU, its name in quotes, and the
    /// width of its pointers and the stride of its instructions in decimal digits.
    pub open spec fn description(self) -> Seq<char> {
        "Cpu { cpu_type: "@ + self.cpu_type.spec_name() + ", name: \""@ + self.cpu_type.spec_name()
            + "\", ptrsize: "@ + spec_decimal(self.ptrsize) + ", insn_step: "@ + spec_decimal(
            self.insn_step,
        ) + " }"@
    }

    /// Pointers are four or eight bytes wide, the stride is at least one byte, the rewind
    /// window holds at least one stride, and every pattern is well formed.
    pub open spec fn valid(self) -> bool {
        &&& self.ptrsize == 4 || self.ptrsize == 8
        &&& self.insn_step >= 1
        &&& self.max_rewind_size >= self.insn_step
        &&& patterns_wf(self.returns)
        &&& patterns_wf(self.calls)
        &&& patterns_wf(self.jumps)
    }
}

/// The architecture-specific constants and terminator patterns that the search needs.
pub trait Cpu: Send + Sync {
    spec fn profile(&self) -> CpuProfile;

    proof fn profile_is_valid(&self)
        ensures
            self.profile().valid(),
    ;

    fn cpu_type(&self) -> (t: CpuType)
        ensures
            t == self.profile().cpu_type,
    ;

    fn ptrsize(&self) -> (n: usize)
        ensures
            n == self.profile().ptrsize,
    ;

    fn insn_step(&self) -> (n: usize)
        ensures
            n == self.profile().insn_step,
    ;

    fn max_rewind_size(&self) -> (n: usize)
        ensures
            n == self.profile().max_rewind_size,
    ;

    fn ret_insns(&self) -> (v: Vec<(Vec<u8>, Vec<u8>)>)
        ensures
            patterns_view(v@) == self.profile().returns,
    ;

    fn call_insns(&self) -> (v: Vec<(Vec<u8>, Vec<u8>)>)
        ensures
            patterns_view(v@) == self.profile().calls,
    ;

    fn jmp_insns(&self) -> (v: Vec<(Vec<u8>, Vec<u8>)>)
        ensures
            patterns_view(v@) == self.profile().jumps,
    ;

    fn name(&self) -> (s: String)
        ensures
            s@ == self.profile().cpu_type.spec_name(),
    {
        self.cpu_type().to_string()
    }

    /// The profile described in one line.
    fn describe(&self) -> (s: String)
        ensures
            s@ == self.profile().description(),
    {
        let mut s = String::from_str("Cpu { cpu_type: ");
        let cpu_type = self.cpu_type().to_string();
        s.append(cpu_type.as_str());
        s.append(", name: \"");
        let name = self.name();
        s.append(name.as_str());
        s.append("\", ptrsize: ");
        let ptrsize = format_decimal(self.ptrsize() as u64);
        s.append(ptrsize.as_str());
        s.append(", insn_step: ");
        let step = format_decimal(self.insn_step() as u64);
        s.append(step.as_str());
        s.append(" }");
        s
    }
}

/// Any of the CPUs that have a profile.
#[derive(Debug, Copy, Clone, PartialEq, Eq)]
pub enum AnyCpu {
    X86(X86),
    X64(X64),
    Arm(Arm),
    Arm64(Arm64),
}

impl Cpu for AnyCpu {
    open spec fn profile(&self) -> CpuProfile {
        match self {
            AnyCpu::X86(cpu) => cpu.profile(),
            AnyCpu::X64(cpu) => cpu.profile(),
            AnyCpu::Arm(cpu) => cpu.profile(),
            AnyCpu::Arm64(cpu) => cpu.profile(),
        }
    }

    proof fn profile_is_valid(&self) {
        match self {
            AnyCpu::X86(cpu) => cpu.profile_is_valid(),
            AnyCpu::X64(cpu) => cpu.profile_is_valid(),
            AnyCpu::Arm(cpu) => cpu.profile_is_valid(),
            AnyCpu::Arm64(cpu) => cpu.profile_is_valid(),
        }
    }

    fn cpu_type(&self) -> CpuType {
        match self {
            AnyCpu::X86(cpu) => cpu.cpu_type(),
            AnyCpu::X64(cpu) => cpu.cpu_type(),
            AnyCpu::Arm(cpu) => cpu.cpu_type(),
            AnyCpu::Arm64(cpu) => cpu.cpu_type(),
        }
    }

    fn ptrsize(&self) -> usize {
        match self {
            AnyCpu::X86(cpu) => cpu.ptrsize(),
            AnyCpu::X64(cpu) => cpu.ptrsize(),
            AnyCpu::Arm(cpu) => cpu.ptrsize(),
            AnyCpu::Arm64(cpu) => cpu.ptrsize(),
        }
    }

    fn insn_step(&self) -> usize {
        match self {
            AnyCpu::X86(cpu) => cpu.insn_step(),
            AnyCpu::X64(cpu) => cpu.insn_step(),
            AnyCpu::Arm(cpu) => cpu.insn_step(),
            AnyCpu::Arm64(cpu) => cpu.insn_step(),
        }
    }

    fn max_rewind_size(&self) -> usize {
        match self {
            AnyCpu::X86(cpu) => cpu.max_rewind_size(),
            AnyCpu::X64(cpu) => cpu.max_rewind_size(),
            AnyCpu::Arm(cpu) => cpu.max_rewind_size(),
            AnyCpu::Arm64(cpu) => cpu.max_rewind_size(),
        }
    }

    fn ret_insns(&self) -> (v: Vec<(Vec<u8>, Vec<u8>)>) {
        match self {
            AnyCpu::X86(cpu) => cpu.ret_insns(),
            AnyCpu::X64(cpu) => cpu.ret_insns(),
            AnyCpu::Arm(cpu) => cpu.ret_insns(),
            AnyCpu::Arm64(cpu) => cpu.ret_insns(),
        }
    }

    fn call_insns(&self) -> (v: Vec<(Vec<u8>, Vec<u8>)>) {
        match self {
            AnyCpu::X86(cpu) => cpu.call_insns(),
            AnyCpu::X64(cpu) => cpu.call_insns(),
            AnyCpu::Arm(cpu) => cpu.call_insns(),
            AnyCpu::Arm64(cpu) => cpu.call_insns(),
        }
    }

    fn jmp_insns(&self) -> (v: Vec<(Vec<u8>, Vec<u8>)>) {
        match self {
            AnyCpu::X86(cpu) => cpu.jmp_insns(),
            AnyCpu::X64(cpu) => cpu.jmp_insns(),
            AnyCpu::Arm(cpu) => cpu.jmp_insns(),
            AnyCpu::Arm64(cpu) => cpu.jmp_insns(),
        }
    }
}

/// The CPU of the type given, if there is a profile for it.
pub open spec fn spec_cpu_of(cpu_type: CpuType) -> Option<AnyCpu> {
    match cpu_type {
        CpuType::X86 => Some(AnyCpu::X86(X86)),
        CpuType::X64 => Some(AnyCpu::X64(X64)),
        CpuType::ARM => Some(AnyCpu::Arm(Arm)),
        CpuType::ARM64 => Some(AnyCpu::Arm64(Arm64)),
        CpuType::Unknown => None,
    }
}

/// The CPU of the type given, if there is a profile for it.
pub fn cpu_of(cpu_type: CpuType) -> (cpu: Option<AnyCpu>)
    ensures
        cpu == spec_cpu_of(cpu_type),
        cpu is Some ==> cpu->0.profile().cpu_type == cpu_type,
{
    match cpu_type {
        CpuType::X86 => Some(AnyCpu::X86(X86)),
        CpuType::X64 => Some(AnyCpu::X64(X64)),
        CpuType::ARM => Some(AnyCpu::Arm(Arm)),
        CpuType::ARM64 => Some(AnyCpu::Arm64(Arm64)),
        CpuType::Unknown => None,
    }
}

/// No opcode bit lies outside a mask of all ones.
pub proof fn lemma_full_mask(b: u8)
    ensures
        b & !0xffu8 == 0,
{
    assert(b & !0xffu8 == 0) by (bit_vector);
}

/// A zero opcode byte fits under any mask.
pub proof fn lemma_zero_opcode(m: u8)
    ensures
        0u8 & !m == 0,
{
    assert(0u8 & !m == 0) by (bit_vector);
}

} // verus!
