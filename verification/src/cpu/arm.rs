//! The profiles of ARM and ARM64.
use vstd::prelude::*;
use crate::cpu::{
    lemma_full_mask, lemma_zero_opcode, pattern_wf, patterns_view, Cpu, CpuProfile, CpuType,
    PatternModel,
};

verus! {

/// Longest stretch of bytes before a terminator that is taken into a gadget on ARM.
pub const ARM_MAX_REWIND: usize = 16;

#[derive(Debug, Copy, Clone, PartialEq, Eq)]
pub struct Arm;

#[derive(Debug, Copy, Clone, PartialEq, Eq)]
pub struct Arm64;

// Patterns are written as the bytes lie in memory, least significant byte first.

/// `RET` as the word 0xd65f03c0.
pub open spec fn arm_returns() -> Seq<PatternModel> {
    seq![(seq![0xc0u8, 0x03u8, 0x5fu8, 0xd6u8], seq![0xffu8, 0xffu8, 0xffu8, 0xffu8])]
}

/// Branch and exchange: the word 0xd12fff10 under the mask 0xfffffff0.
pub open spec fn arm_calls() -> Seq<PatternModel> {
    seq![(seq![0x10u8, 0xffu8, 0x2fu8, 0xd1u8], seq![0xf0u8, 0xffu8, 0xffu8, 0xffu8])]
}

/// `RET Xn` and its authenticated forms: the word 0xd65f0000 under the mask 0xfffff000.
pub open spec fn arm64_returns() -> Seq<PatternModel> {
    seq![(seq![0x00u8, 0x00u8, 0x5fu8, 0xd6u8], seq![0x00u8, 0xf0u8, 0xffu8, 0xffu8])]
}

/// `BLR`: the word 0xd63f0000 under the mask 0xfffff01f.
pub open spec fn arm64_calls() -> Seq<PatternModel> {
    seq![(seq![0x00u8, 0x00u8, 0x3fu8, 0xd6u8], seq![0x1fu8, 0xf0u8, 0xffu8, 0xffu8])]
}

/// `BR`: the word 0xd61f0000 under the mask 0xfffff01f.
pub open spec fn arm64_jumps() -> Seq<PatternModel> {
    seq![(seq![0x00u8, 0x00u8, 0x1fu8, 0xd6u8], seq![0x1fu8, 0xf0u8, 0xffu8, 0xffu8])]
}

/// Every byte of the pattern is zero or lies under a full mask.
pub open spec fn zero_or_full(p: PatternModel) -> bool {
    &&& p.0.len() == p.1.len()
    &&& p.0.len() > 0
    &&& forall|i: int| 0 <= i < p.0.len() ==> #[trigger] p.0[i] == 0u8 || p.1[i] == 0xffu8
}

pub proof fn lemma_zero_or_full_wf(p: PatternModel)
    requires
        zero_or_full(p),
    ensures
        pattern_wf(p),
{
    assert forall|i: int| 0 <= i < p.0.len() implies #[trigger] p.0[i] & !p.1[i] == 0 by {
        if p.0[i] == 0u8 {
            lemma_zero_opcode(p.1[i]);
        } else {
            lemma_full_mask(p.0[i]);
        }
    }
}

fn word_pattern(opcode: [u8; 4], mask: [u8; 4]) -> (p: (Vec<u8>, Vec<u8>))
    ensures
        p.0@ == seq![opcode[0], opcode[1], opcode[2], opcode[3]],
        p.1@ == seq![mask[0], mask[1], mask[2], mask[3]],
{
    let mut op: Vec<u8> = Vec::new();
    let mut mk: Vec<u8> = Vec::new();
    op.push(opcode[0]);
    op.push(opcode[1]);
    op.push(opcode[2]);
    op.push(opcode[3]);
    mk.push(mask[0]);
    mk.push(mask[1]);
    mk.push(mask[2]);
    mk.push(mask[3]);
    assert(op@ =~= seq![opcode[0], opcode[1], opcode[2], opcode[3]]);
    assert(mk@ =~= seq![mask[0], mask[1], mask[2], mask[3]]);
    (op, mk)
}

impl Cpu for Arm {
    open spec fn profile(&self) -> CpuProfile {
        CpuProfile {
            cpu_type: CpuType::ARM,
            ptrsize: 4,
            insn_step: 4,
            max_rewind_size: ARM_MAX_REWIND as nat,
            returns: arm_returns(),
            calls: arm_calls(),
            jumps: Seq::empty(),
        }
    }

    proof fn profile_is_valid(&self) {
        let p = self.profile();
        assert forall|k: int| 0 <= k < p.returns.len() implies pattern_wf(#[trigger] p.returns[k]) by {
            lemma_zero_or_full_wf(p.returns[k]);
        }
        assert forall|k: int| 0 <= k < p.calls.len() implies pattern_wf(#[trigger] p.calls[k]) by {
            let c = p.calls[k];
            assert forall|i: int| 0 <= i < c.0.len() implies #[trigger] c.0[i] & !c.1[i] == 0 by {
                if i == 0 {
                    assert(0x10u8 & !0xf0u8 == 0) by (bit_vector);
                } else {
                    lemma_full_mask(c.0[i]);
                }
            }
        }
    }

    fn cpu_type(&self) -> CpuType {
        CpuType::ARM
    }

    fn ptrsize(&self) -> usize {
        4
    }

    fn insn_step(&self) -> usize {
        4
    }

    fn max_rewind_size(&self) -> usize {
        ARM_MAX_REWIND
    }

    fn ret_insns(&self) -> (v: Vec<(Vec<u8>, Vec<u8>)>) {
        let mut v: Vec<(Vec<u8>, Vec<u8>)> = Vec::new();
        v.push(word_pattern([0xc0, 0x03, 0x5f, 0xd6], [0xff, 0xff, 0xff, 0xff]));
        assert(patterns_view(v@) =~~= arm_returns());
        v
    }

    fn call_insns(&self) -> (v: Vec<(Vec<u8>, Vec<u8>)>) {
        let mut v: Vec<(Vec<u8>, Vec<u8>)> = Vec::new();
        v.push(word_pattern([0x10, 0xff, 0x2f, 0xd1], [0xf0, 0xff, 0xff, 0xff]));
        assert(patterns_view(v@) =~~= arm_calls());
        v
    }

    fn jmp_insns(&self) -> (v: Vec<(Vec<u8>, Vec<u8>)>) {
        let v: Vec<(Vec<u8>, Vec<u8>)> = Vec::new();
        assert(patterns_view(v@) =~~= Seq::<PatternModel>::empty());
        v
    }
}

impl Cpu for Arm64 {
    open spec fn profile(&self) -> CpuProfile {
        CpuProfile {
            cpu_type: CpuType::ARM64,
            ptrsize: 8,
            insn_step: 4,
            max_rewind_size: ARM_MAX_REWIND as nat,
            returns: arm64_returns(),
            calls: arm64_calls(),
            jumps: arm64_jumps(),
        }
    }

    proof fn profile_is_valid(&self) {
        let p = self.profile();
        assert forall|k: int| 0 <= k < p.returns.len() implies pattern_wf(#[trigger] p.returns[k]) by {
            lemma_zero_or_full_wf(p.returns[k]);
        }
        assert forall|k: int| 0 <= k < p.calls.len() implies pattern_wf(#[trigger] p.calls[k]) by {
            lemma_zero_or_full_wf(p.calls[k]);
        }
        assert forall|k: int| 0 <= k < p.jumps.len() implies pattern_wf(#[trigger] p.jumps[k]) by {
            lemma_zero_or_full_wf(p.jumps[k]);
        }
    }

    fn cpu_type(&self) -> CpuType {
        CpuType::ARM64
    }

    fn ptrsize(&self) -> usize {
        8
    }

    fn insn_step(&self) -> usize {
        4
    }

    fn max_rewind_size(&self) -> usize {
        ARM_MAX_REWIND
    }

    fn ret_insns(&self) -> (v: Vec<(Vec<u8>, Vec<u8>)>) {
        let mut v: Vec<(Vec<u8>, Vec<u8>)> = Vec::new();
        v.push(word_pattern([0x00, 0x00, 0x5f, 0xd6], [0x00, 0xf0, 0xff, 0xff]));
        assert(patterns_view(v@) =~~= arm64_returns());
        v
    }

    fn call_insns(&self) -> (v: Vec<(Vec<u8>, Vec<u8>)>) {
        let mut v: Vec<(Vec<u8>, Vec<u8>)> = Vec::new();
        v.push(word_pattern([0x00, 0x00, 0x3f, 0xd6], [0x1f, 0xf0, 0xff, 0xff]));
        assert(patterns_view(v@) =~~= arm64_calls());
        v
    }

    fn jmp_insns(&self) -> (v: Vec<(Vec<u8>, Vec<u8>)>) {
        let mut v: Vec<(Vec<u8>, Vec<u8>)> = Vec::new();
        v.push(word_pattern([0x00, 0x00, 0x1f, 0xd6], [0x1f, 0xf0, 0xff, 0xff]));
        assert(patterns_view(v@) =~~= arm64_jumps());
        v
    }
}

} // verus!
