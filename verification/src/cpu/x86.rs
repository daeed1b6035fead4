//! The profiles of x86 and x86-64.
use vstd::prelude::*;
use crate::cpu::{
    lemma_full_mask, lemma_zero_opcode, pattern_wf, patterns_view, Cpu, CpuProfile, CpuType,
    PatternModel,
};

verus! {

/// Longest stretch of bytes before a terminator that is taken into a gadget on x86.
pub const X86_MAX_REWIND: usize = 16;

#[derive(Debug, Copy, Clone, PartialEq, Eq)]
pub struct X86;

#[derive(Debug, Copy, Clone, PartialEq, Eq)]
pub struct X64;

pub open spec fn x86_returns() -> Seq<PatternModel> {
    seq![
        (seq![0xc3u8], seq![0xffu8]),
        (seq![0xc2u8, 0x00u8, 0x00u8], seq![0xffu8, 0x00u8, 0x00u8]),
        (seq![0xcbu8], seq![0xffu8]),
        (seq![0xcau8, 0x00u8, 0x00u8], seq![0xffu8, 0x00u8, 0x00u8]),
    ]
}

pub open spec fn x86_calls() -> Seq<PatternModel> {
    seq![(seq![0xffu8, 0x00u8], seq![0xffu8, 0x00u8])]
}

pub open spec fn x64_returns() -> Seq<PatternModel> {
    seq![
        (seq![0xc3u8], seq![0xffu8]),
        (seq![0xcbu8], seq![0xffu8]),
        (seq![0xc2u8, 0x00u8, 0x00u8], seq![0xffu8, 0x00u8, 0x00u8]),
        (seq![0xcau8, 0x00u8, 0x00u8], seq![0xffu8, 0x00u8, 0x00u8]),
    ]
}

pub open spec fn x64_calls() -> Seq<PatternModel> {
    seq![
        (seq![0xffu8, 0x00u8], seq![0xffu8, 0x00u8]),
        (
            seq![0xe8u8, 0x00u8, 0x00u8, 0x00u8, 0x00u8],
            seq![0xffu8, 0x00u8, 0x00u8, 0x00u8, 0x00u8],
        ),
        (
            seq![0xe9u8, 0x00u8, 0x00u8, 0x00u8, 0x00u8],
            seq![0xffu8, 0x00u8, 0x00u8, 0x00u8, 0x00u8],
        ),
    ]
}

/// A pattern made of an opcode byte under a full mask, then `n` free bytes.
pub open spec fn opcode_then_free(p: PatternModel) -> bool {
    &&& p.0.len() == p.1.len()
    &&& p.0.len() > 0
    &&& p.1[0] == 0xffu8
    &&& forall|i: int| 1 <= i < p.0.len() ==> #[trigger] p.0[i] == 0u8
}

pub proof fn lemma_opcode_then_free_wf(p: PatternModel)
    requires
        opcode_then_free(p),
    ensures
        pattern_wf(p),
{
    assert forall|i: int| 0 <= i < p.0.len() implies #[trigger] p.0[i] & !p.1[i] == 0 by {
        if i == 0 {
            lemma_full_mask(p.0[0]);
        } else {
            assert(p.0[i] == 0u8);
            lemma_zero_opcode(p.1[i]);
        }
    }
}

fn byte_then_free(opcode: u8, free: usize) -> (p: (Vec<u8>, Vec<u8>))
    ensures
        p.0@ == seq![opcode] + Seq::new(free as nat, |i: int| 0u8),
        p.1@ == seq![0xffu8] + Seq::new(free as nat, |i: int| 0u8),
{
    let mut op: Vec<u8> = Vec::new();
    let mut mask: Vec<u8> = Vec::new();
    op.push(opcode);
    mask.push(0xff);
    let mut i: usize = 0;
    while i < free
        invariant
            i <= free,
            op@ == seq![opcode] + Seq::new(i as nat, |i: int| 0u8),
            mask@ == seq![0xffu8] + Seq::new(i as nat, |i: int| 0u8),
        decreases free - i,
    {
        op.push(0);
        mask.push(0);
        i = i + 1;
        assert(op@ =~= seq![opcode] + Seq::new(i as nat, |i: int| 0u8));
        assert(mask@ =~= seq![0xffu8] + Seq::new(i as nat, |i: int| 0u8));
    }
    (op, mask)
}

impl Cpu for X86 {
    open spec fn profile(&self) -> CpuProfile {
        CpuProfile {
            cpu_type: CpuType::X86,
            ptrsize: 4,
            insn_step: 1,
            max_rewind_size: X86_MAX_REWIND as nat,
            returns: x86_returns(),
            calls: x86_calls(),
            jumps: Seq::empty(),
        }
    }

    proof fn profile_is_valid(&self) {
        let p = self.profile();
        assert forall|k: int| 0 <= k < p.returns.len() implies pattern_wf(#[trigger] p.returns[k]) by {
            lemma_opcode_then_free_wf(p.returns[k]);
        }
        assert forall|k: int| 0 <= k < p.calls.len() implies pattern_wf(#[trigger] p.calls[k]) by {
            lemma_opcode_then_free_wf(p.calls[k]);
        }
    }

    fn cpu_type(&self) -> CpuType {
        CpuType::X86
    }

    fn ptrsize(&self) -> usize {
        4
    }

    fn insn_step(&self) -> usize {
        1
    }

    fn max_rewind_size(&self) -> usize {
        X86_MAX_REWIND
    }

    fn ret_insns(&self) -> (v: Vec<(Vec<u8>, Vec<u8>)>) {
        let mut v: Vec<(Vec<u8>, Vec<u8>)> = Vec::new();
        v.push(byte_then_free(0xc3, 0));  // ret
        v.push(byte_then_free(0xc2, 2));  // ret imm16
        v.push(byte_then_free(0xcb, 0));  // retf
        v.push(byte_then_free(0xca, 2));  // retf imm16
        assert(patterns_view(v@) =~~= x86_returns());
        v
    }

    fn call_insns(&self) -> (v: Vec<(Vec<u8>, Vec<u8>)>) {
        let mut v: Vec<(Vec<u8>, Vec<u8>)> = Vec::new();
        v.push(byte_then_free(0xff, 1));  // call/jmp through a register or memory
        assert(patterns_view(v@) =~~= x86_calls());
        v
    }

    fn jmp_insns(&self) -> (v: Vec<(Vec<u8>, Vec<u8>)>) {
        let v: Vec<(Vec<u8>, Vec<u8>)> = Vec::new();
        assert(patterns_view(v@) =~~= Seq::<PatternModel>::empty());
        v
    }
}

impl Cpu for X64 {
    open spec fn profile(&self) -> CpuProfile {
        CpuProfile {
            cpu_type: CpuType::X64,
            ptrsize: 8,
            insn_step: 1,
            max_rewind_size: X86_MAX_REWIND as nat,
            returns: x64_returns(),
            calls: x64_calls(),
            jumps: Seq::empty(),
        }
    }

    proof fn profile_is_valid(&self) {
        let p = self.profile();
        assert forall|k: int| 0 <= k < p.returns.len() implies pattern_wf(#[trigger] p.returns[k]) by {
            lemma_opcode_then_free_wf(p.returns[k]);
        }
        assert forall|k: int| 0 <= k < p.calls.len() implies pattern_wf(#[trigger] p.calls[k]) by {
            lemma_opcode_then_free_wf(p.calls[k]);
        }
    }

    fn cpu_type(&self) -> CpuType {
        CpuType::X64
    }

    fn ptrsize(&self) -> usize {
        8
    }

    fn insn_step(&self) -> usize {
        1
    }

    fn max_rewind_size(&self) -> usize {
        X86_MAX_REWIND
    }

    fn ret_insns(&self) -> (v: Vec<(Vec<u8>, Vec<u8>)>) {
        let mut v: Vec<(Vec<u8>, Vec<u8>)> = Vec::new();
        v.push(byte_then_free(0xc3, 0));  // ret
        v.push(byte_then_free(0xcb, 0));  // retf
        v.push(byte_then_free(0xc2, 2));  // ret imm16
        v.push(byte_then_free(0xca, 2));  // retf imm16
        assert(patterns_view(v@) =~~= x64_returns());
        v
    }

    fn call_insns(&self) -> (v: Vec<(Vec<u8>, Vec<u8>)>) {
        let mut v: Vec<(Vec<u8>, Vec<u8>)> = Vec::new();
        v.push(byte_then_free(0xff, 1));  // call/jmp through a register or memory
        v.push(byte_then_free(0xe8, 4));  // call rel32
        v.push(byte_then_free(0xe9, 4));  // jmp rel32
        assert(patterns_view(v@) =~~= x64_calls());
        v
    }

    fn jmp_insns(&self) -> (v: Vec<(Vec<u8>, Vec<u8>)>) {
        let v: Vec<(Vec<u8>, Vec<u8>)> = Vec::new();
        assert(patterns_view(v@) =~~= Seq::<PatternModel>::empty());
        v
    }
}

} // verus!
