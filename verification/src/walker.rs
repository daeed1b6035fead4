//! Walking backward from a terminator: what is made of each answer of the disassembler.
use vstd::prelude::*;
use crate::engine::{is_decoding, laid_out, lemma_laid_out_ascends, reads_from};
use crate::gadget::{
    concat_raw, gadgets_view, insns_view, total_size, Gadget, GadgetModel, Instruction,
    InstructionGroup, InstructionModel,
};

verus! {

/// Where the instructions that are kept start, looking backward from instruction `k`: just
/// behind the nearest instruction before `k` that transfers control or changes mode, or at
/// the very first instruction if there is none.
pub open spec fn spec_cut(insns: Seq<InstructionModel>, k: int) -> int
    decreases k,
{
    if k <= 0 {
        0
    } else if insns[k - 1].group.spec_is_disqualifying() {
        k
    } else {
        spec_cut(insns, k - 1)
    }
}

/// The instructions of the gadget that ends with the last of `insns`: walking backward from
/// the terminator, every instruction up to the first one that transfers control or changes
/// mode. That one and everything before it are dropped.
pub open spec fn spec_gadget_insns(insns: Seq<InstructionModel>) -> Seq<InstructionModel> {
    insns.skip(spec_cut(insns, insns.len() - 1))
}

/// The cut lies before `k`; nothing between it and `k` transfers control or changes mode;
/// and the instruction just before the cut, if there is one, does.
pub proof fn lemma_spec_cut(insns: Seq<InstructionModel>, k: int)
    requires
        0 <= k < insns.len(),
    ensures
        0 <= spec_cut(insns, k) <= k,
        forall|i: int| spec_cut(insns, k) <= i < k ==> !(#[trigger] insns[i]).group.spec_is_disqualifying(),
        spec_cut(insns, k) > 0 ==> insns[spec_cut(insns, k) - 1].group.spec_is_disqualifying(),
    decreases k,
{
    if k > 0 && !insns[k - 1].group.spec_is_disqualifying() {
        lemma_spec_cut(insns, k - 1);
    }
}

/// The instructions kept of a decoding are laid out as the decoding is, and hold the bytes
/// of whatever the decoded code was cut out of.
pub proof fn lemma_gadget_of_decoding(
    decoded: Seq<InstructionModel>,
    code: Seq<u8>,
    address: int,
    data: Seq<u8>,
    base: int,
)
    requires
        decoded.len() > 0,
        is_decoding(decoded, code, address),
        base <= address,
        address - base + code.len() <= data.len(),
        code == data.subrange(address - base, address - base + code.len()),
    ensures
        laid_out(spec_gadget_insns(decoded), address, address + code.len()),
        reads_from(spec_gadget_insns(decoded), data, base),
        spec_gadget_insns(decoded).len() > 0,
        spec_gadget_insns(decoded).last() == decoded.last(),
        forall|i: int|
            0 <= i < spec_gadget_insns(decoded).len() - 1 ==> !(#[trigger] spec_gadget_insns(
                decoded,
            )[i]).group.spec_is_disqualifying(),
{
    let k = spec_cut(decoded, decoded.len() - 1);
    let kept = spec_gadget_insns(decoded);
    let hi = address + code.len();
    lemma_spec_cut(decoded, decoded.len() - 1);
    assert forall|i: int| 0 <= i < kept.len() implies (#[trigger] kept[i]).wf() by {
        assert(kept[i] == decoded[k + i]);
    }
    assert forall|i: int| 0 <= i < kept.len() - 1 implies (#[trigger] kept[i + 1]).address
        == kept[i].end() by {
        assert(kept[i + 1] == decoded[(k + i) + 1]);
        assert(kept[i] == decoded[k + i]);
    }
    lemma_laid_out_ascends(decoded, address, hi, k, decoded.len() - 1);
    assert forall|i: int| 0 <= i < kept.len() implies (#[trigger] kept[i]).raw == data.subrange(
        kept[i].address - base,
        kept[i].end() - base,
    ) by {
        let m = decoded[k + i];
        assert(kept[i] == m);
        lemma_laid_out_ascends(decoded, address, hi, k + i, k + i);
        assert(m.raw == code.subrange(m.address - address, m.end() - address));
        assert(code.subrange(m.address - address, m.end() - address) =~= data.subrange(
            m.address - base,
            m.end() - base,
        ));
    }
    assert forall|i: int| 0 <= i < kept.len() - 1 implies !(#[trigger] kept[i]).group.spec_is_disqualifying() by {
        assert(kept[i] == decoded[k + i]);
    }
}

/// What looking at one decoding gives.
#[derive(Debug)]
pub enum Examined {
    /// The decoding does not end in a terminator of the group that is searched.
    Nothing,
    /// The decoding ends in such a terminator, but the gadget has more instructions than
    /// a gadget may have.
    TooLong,
    /// The gadget that ends with the decoding.
    Found(Gadget),
}

/// Looks at what a disassembler decoded before a terminator of the group searched.
///
/// Where the last instruction belongs to the group, the gadget is made of it and of the
/// instructions before it, back to the first one that transfers control or changes mode,
/// which is left out with everything before it.
pub fn examine_decoding(insns: Vec<Instruction>, group: InstructionGroup, max_insns: usize) -> (r:
    Examined)
    requires
        forall|i: int| 0 <= i < insns@.len() ==> (#[trigger] insns@[i]).size == insns@[i].raw@.len(),
    ensures
        insns@.len() == 0 || insns@.last().group != group ==> r is Nothing,
        insns@.len() > 0 && insns@.last().group == group ==> {
            let kept = spec_gadget_insns(insns_view(insns@));
            if kept.len() > max_insns {
                r is TooLong
            } else {
                r is Found && r->0@.insns == kept && r->0@.wf()
            }
        },
{
    let mut insns = insns;
    let n: usize = insns.len();
    if n == 0 {
        return Examined::Nothing;
    }
    if !same_group(insns[n - 1].group, group) {
        return Examined::Nothing;
    }
    let ghost models = insns_view(insns@);
    let ghost all = insns@;
    let mut k: usize = n - 1;
    while k > 0 && !insns[k - 1].group.is_disqualifying()
        invariant
            k <= n - 1,
            n == insns@.len(),
            models == insns_view(insns@),
            spec_cut(models, n - 1) == spec_cut(models, k as int),
        decreases k,
    {
        k = k - 1;
    }
    assert(spec_cut(models, n - 1) == k);
    if n - k > max_insns {
        assert(models.skip(k as int).len() == n - k);
        return Examined::TooLong;
    }
    let kept = insns.split_off(k);
    assert(kept@ == all.subrange(k as int, n as int));
    assert(insns_view(kept@) =~= models.skip(k as int));
    assert forall|i: int| 0 <= i < kept@.len() implies (#[trigger] kept@[i]).size
        == kept@[i].raw@.len() by {
        assert(kept@[i] == all[k + i]);
    }
    Examined::Found(Gadget::new(kept))
}

fn same_group(a: InstructionGroup, b: InstructionGroup) -> (r: bool)
    ensures
        r == (a == b),
{
    a == b
}

/// Whether one of the gadgets starts at the address given.
pub open spec fn spec_already_found(gadgets: Seq<GadgetModel>, address: u64) -> bool {
    exists|i: int| 0 <= i < gadgets.len() && (#[trigger] gadgets[i]).address == address
}

/// Whether a gadget at the address given has been found already.
fn already_found(gadgets: &Vec<Gadget>, address: u64) -> (b: bool)
    ensures
        b == spec_already_found(gadgets_view(gadgets@), address),
{
    let mut i: usize = 0;
    while i < gadgets.len()
        invariant
            i <= gadgets@.len(),
            forall|j: int| 0 <= j < i ==> (#[trigger] gadgets_view(gadgets@)[j]).address != address,
        decreases gadgets@.len() - i,
    {
        if gadgets[i].address == address {
            assert(gadgets_view(gadgets@)[i as int].address == address);
            return true;
        }
        i = i + 1;
    }
    false
}

/// How far the walk before one terminator has come.
#[derive(Debug)]
pub struct Walk {
    /// The number of bytes of the run that the disassembler is handed next.
    pub size: usize,
    /// The number of decodings that failed in a row.
    pub invalid_run: usize,
    /// The gadgets found so far, in the order in which they were found.
    pub gadgets: Vec<Gadget>,
    /// Whether the walk is over.
    pub stopped: bool,
}

/// The state of a walk as mathematical values.
pub struct WalkModel {
    pub size: nat,
    pub invalid_run: nat,
    pub gadgets: Seq<GadgetModel>,
    pub stopped: bool,
}

impl View for Walk {
    type V = WalkModel;

    open spec fn view(&self) -> WalkModel {
        WalkModel {
            size: self.size as nat,
            invalid_run: self.invalid_run as nat,
            gadgets: gadgets_view(self.gadgets@),
            stopped: self.stopped,
        }
    }
}

/// The gadget made of the instructions given.
pub open spec fn spec_gadget_of(insns: Seq<InstructionModel>) -> GadgetModel {
    GadgetModel {
        address: insns[0].address,
        insns,
        size: total_size(insns),
        raw: concat_raw(insns),
    }
}

/// The walk one stride further, unless the run would grow beyond what a machine can count.
pub open spec fn spec_walk_on(walk: WalkModel, stride: nat) -> WalkModel {
    if walk.size + stride > usize::MAX {
        WalkModel { stopped: true, ..walk }
    } else {
        WalkModel { size: walk.size + stride, ..walk }
    }
}

/// What one answer of the disassembler does to a walk.
///
/// A failed decoding is counted, and the walk stops at as many failed decodings in a row as
/// the rewind has bytes. Any decoding sets that count back to zero. A decoding that ends in
/// an instruction of the group searched gives a gadget: the walk stops if it has more
/// instructions than a gadget may have, and else keeps it unless a gadget at its address was
/// found before. A walk that goes on has its run grown by one stride.
pub open spec fn spec_walk_step(
    walk: WalkModel,
    decoded: Option<Seq<InstructionModel>>,
    group: InstructionGroup,
    max_insns: nat,
    rewind: nat,
    stride: nat,
) -> WalkModel {
    match decoded {
        None => {
            let counted = WalkModel { invalid_run: walk.invalid_run + 1, ..walk };
            if counted.invalid_run == rewind {
                WalkModel { stopped: true, ..counted }
            } else {
                spec_walk_on(counted, stride)
            }
        },
        Some(insns) => {
            let counted = WalkModel { invalid_run: 0, ..walk };
            if insns.len() == 0 || insns.last().group != group {
                spec_walk_on(counted, stride)
            } else if spec_gadget_insns(insns).len() > max_insns {
                WalkModel { stopped: true, ..counted }
            } else {
                let gadget = spec_gadget_of(spec_gadget_insns(insns));
                if spec_already_found(walk.gadgets, gadget.address) {
                    spec_walk_on(counted, stride)
                } else {
                    spec_walk_on(
                        WalkModel { gadgets: walk.gadgets.push(gadget), ..counted },
                        stride,
                    )
                }
            }
        },
    }
}

/// The walk before a terminator of `len` bytes, before any answer: the run is the
/// terminator alone.
pub open spec fn spec_walk_start(len: nat) -> WalkModel {
    WalkModel { size: len, invalid_run: 0, gadgets: Seq::empty(), stopped: false }
}

/// Whether a walk asks the disassembler once more: it has not stopped, and its run lies
/// inside the `window` bytes that are taken into account and is no larger than a gadget
/// may be.
pub open spec fn spec_walk_goes_on(walk: WalkModel, window: nat, max_size: nat) -> bool {
    !walk.stopped && walk.size <= window && walk.size <= max_size
}

/// Takes one answer of the disassembler into a walk.
pub fn walk_step(
    walk: &mut Walk,
    decoded: Option<Vec<Instruction>>,
    group: InstructionGroup,
    max_insns: usize,
    rewind: usize,
    stride: usize,
)
    requires
        decoded is Some ==> forall|i: int|
            0 <= i < decoded->0@.len() ==> (#[trigger] decoded->0@[i]).size
                == decoded->0@[i].raw@.len(),
        old(walk).invalid_run < usize::MAX,
    ensures
        final(walk)@ == spec_walk_step(
            old(walk)@,
            match decoded {
                Some(insns) => Some(insns_view(insns@)),
                None => None,
            },
            group,
            max_insns as nat,
            rewind as nat,
            stride as nat,
        ),
{
    match decoded {
        Some(x) => {
            walk.invalid_run = 0;
            match examine_decoding(x, group, max_insns) {
                Examined::Found(gadget) => {
                    assert(gadget@ == spec_gadget_of(spec_gadget_insns(insns_view(x@))));
                    if !already_found(&walk.gadgets, gadget.address) {
                        let ghost before = gadgets_view(walk.gadgets@);
                        walk.gadgets.push(gadget);
                        assert(gadgets_view(walk.gadgets@) =~= before.push(gadget@));
                    }
                },
                Examined::TooLong => {
                    walk.stopped = true;
                    return ;
                },
                Examined::Nothing => {},
            }
        },
        None => {
            walk.invalid_run = walk.invalid_run + 1;
            if walk.invalid_run == rewind {
                walk.stopped = true;
                return ;
            }
        },
    }
    match walk.size.checked_add(stride) {
        Some(longer) => {
            walk.size = longer;
        },
        None => {
            walk.stopped = true;
        },
    }
}

} // verus!
