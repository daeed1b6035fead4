//! Instructions and gadgets, the terminators of a chunk of a section and the gadgets before
//! one terminator.
use vstd::prelude::*;
use vstd::slice::*;
use vstd::string::*;
use crate::common::GenericResult;
use crate::cpu::{patterns_view, patterns_wf, Cpu, CpuProfile, PatternModel};
use crate::engine::{answer_view, laid_out, lemma_laid_out_ascends, reads_from, Disassembler};
use crate::error::{Error, GadgetBuildError};
use crate::matcher::{candidates, chunk_size, scan_patterns, spec_chunk_end, spec_chunk_start};
use crate::numbers::{
    format_byte_list, format_decimal, format_hex, spec_byte_list, spec_decimal, spec_hex,
};
use crate::section::{Section, SectionModel};
use crate::session::{RopProfileStrategy, Session};
use crate::walker::{
    lemma_gadget_of_decoding, spec_gadget_insns, spec_gadget_of, spec_walk_goes_on,
    spec_walk_start, spec_walk_step, walk_step, Walk, WalkModel,
};

verus! {

/// The kind of control transfer that an instruction performs, if any.
#[derive(Debug, Copy, Clone, PartialEq, Eq, PartialOrd, Ord, Structural)]
pub enum InstructionGroup {
    Undefined,
    Ret,
    Jump,
    Call,
    Int,
    Iret,
    Privileged,
}

impl Default for InstructionGroup {
    fn default() -> (g: Self)
        ensures
            g == InstructionGroup::Ret,
    {
        InstructionGroup::Ret
    }
}

impl InstructionGroup {
    pub open spec fn spec_name(self) -> Seq<char> {
        match self {
            InstructionGroup::Undefined => "Undefined"@,
            InstructionGroup::Ret => "Ret"@,
            InstructionGroup::Jump => "Jump"@,
            InstructionGroup::Call => "Call"@,
            InstructionGroup::Int => "Int"@,
            InstructionGroup::Iret => "Iret"@,
            InstructionGroup::Privileged => "Privileged"@,
        }
    }

    /// The group as text, spelled as the variant is.
    pub fn to_string(&self) -> (s: String)
        ensures
            s@ == self.spec_name(),
    {
        match self {
            InstructionGroup::Undefined => String::from_str("Undefined"),
            InstructionGroup::Ret => String::from_str("Ret"),
            InstructionGroup::Jump => String::from_str("Jump"),
            InstructionGroup::Call => String::from_str("Call"),
            InstructionGroup::Int => String::from_str("Int"),
            InstructionGroup::Iret => String::from_str("Iret"),
            InstructionGroup::Privileged => String::from_str("Privileged"),
        }
    }

    /// Whether an instruction of this group transfers control or changes mode, so that
    /// nothing before it can belong to a gadget that runs through it.
    pub open spec fn spec_is_disqualifying(self) -> bool {
        self != InstructionGroup::Undefined
    }

    #[verifier::when_used_as_spec(spec_is_disqualifying)]
    pub fn is_disqualifying(self) -> (b: bool)
        ensures
            b == self.spec_is_disqualifying(),
    {
        match self {
            InstructionGroup::Undefined => false,
            _ => true,
        }
    }

    /// Whether gadgets can be searched by this group: whether a CPU profile has patterns
    /// for it.
    pub open spec fn spec_is_terminator(self) -> bool {
        self == InstructionGroup::Ret || self == InstructionGroup::Call || self
            == InstructionGroup::Jump
    }

    #[verifier::when_used_as_spec(spec_is_terminator)]
    pub fn is_terminator(self) -> (b: bool)
        ensures
            b == self.spec_is_terminator(),
    {
        match self {
            InstructionGroup::Ret | InstructionGroup::Call | InstructionGroup::Jump => true,
            _ => false,
        }
    }
}

/// One decoded instruction.
#[derive(Debug, PartialEq, Clone)]
pub struct Instruction {
    pub size: usize,
    pub raw: Vec<u8>,
    pub address: u64,
    pub group: InstructionGroup,
    pub mnemonic: String,
    pub operands: Option<String>,
}

/// An instruction as mathematical values.
pub struct InstructionModel {
    pub size: nat,
    pub raw: Seq<u8>,
    pub address: u64,
    pub group: InstructionGroup,
    pub mnemonic: Seq<char>,
    pub operands: Option<Seq<char>>,
}

impl InstructionModel {
    /// The size that the instruction states is the number of its bytes, and it has at least
    /// one byte.
    pub open spec fn wf(self) -> bool {
        self.size == self.raw.len() && self.size > 0
    }

    /// The address just behind the instruction.
    pub open spec fn end(self) -> int {
        self.address + self.size
    }

    /// The mnemonic, then a space and the operands where there are any.
    pub open spec fn text(self) -> Seq<char> {
        spec_join_text(self.mnemonic, self.operands)
    }
}

pub open spec fn spec_join_text(mnemonic: Seq<char>, operands: Option<Seq<char>>) -> Seq<char> {
    match operands {
        Some(ops) => mnemonic + " "@ + ops,
        None => mnemonic,
    }
}

impl View for Instruction {
    type V = InstructionModel;

    open spec fn view(&self) -> InstructionModel {
        InstructionModel {
            size: self.size as nat,
            raw: self.raw@,
            address: self.address,
            group: self.group,
            mnemonic: self.mnemonic@,
            operands: match self.operands {
                Some(ops) => Some(ops@),
                None => None,
            },
        }
    }
}

/// The models of a run of instructions, one for one.
pub open spec fn insns_view(insns: Seq<Instruction>) -> Seq<InstructionModel> {
    insns.map_values(|i: Instruction| i@)
}

/// `Colorize::cyan` of the crate `colored`, rendered: the text as a terminal shows it in
/// cyan. Whether escape codes are added at all is decided by the environment of the process.
#[verifier::external_body]
fn paint_cyan(text: &str) -> String {
    colored::Colorize::cyan(text).to_string()
}

/// `Colorize::bold` of the crate `colored`, rendered: the text as a terminal shows it in
/// bold. Whether escape codes are added at all is decided by the environment of the process.
#[verifier::external_body]
fn paint_bold(text: &str) -> String {
    colored::Colorize::bold(text).to_string()
}

/// The mnemonic, then a space and the operands where there are any.
pub fn join_text(mnemonic: String, operands: Option<String>) -> (s: String)
    ensures
        s@ == spec_join_text(
            mnemonic@,
            match operands {
                Some(ops) => Some(ops@),
                None => None,
            },
        ),
{
    match operands {
        Some(ops) => {
            let mut s = mnemonic;
            s.append(" ");
            s.append(ops.as_str());
            s
        },
        None => mnemonic,
    }
}

/// The text of an instruction whose mnemonic and operands are painted as given: the
/// painted mnemonic, then a space and the painted operands where the instruction has any.
pub open spec fn spec_painted_text(
    insn: InstructionModel,
    mnemonic: Seq<char>,
    operands: Seq<char>,
) -> Seq<char> {
    spec_join_text(
        mnemonic,
        match insn.operands {
            Some(_) => Some(operands),
            None => None,
        },
    )
}

/// Whether `text` is the text of an instruction with its parts painted in some way.
pub open spec fn is_painted_text(text: Seq<char>, insn: InstructionModel) -> bool {
    exists|mnemonic: Seq<char>, operands: Seq<char>|
        text == #[trigger] spec_painted_text(insn, mnemonic, operands)
}

impl Instruction {
    /// The instruction as text: the mnemonic, then a space and the operands where there are
    /// any. With `use_color` the two parts are first painted for a terminal, each by itself.
    pub fn text(&self, use_color: bool) -> (s: String)
        ensures
            !use_color ==> s@ == self@.text(),
            use_color ==> is_painted_text(s@, self@),
    {
        if use_color {
            let mnemo = paint_cyan(self.mnemonic.as_str());
            let op = match &self.operands {
                Some(x) => Some(paint_bold(x.as_str())),
                None => None,
            };
            let ghost painted = if op is Some {
                op->0@
            } else {
                Seq::empty()
            };
            let s = join_text(mnemo, op);
            assert(s@ == spec_painted_text(self@, mnemo@, painted));
            s
        } else {
            let op = match &self.operands {
                Some(x) => Some(x.clone()),
                None => None,
            };
            join_text(self.mnemonic.clone(), op)
        }
    }
}

impl InstructionModel {
    /// The instruction described in one line: its address in hexadecimal digits, its size,
    /// its text, its bytes and its group.
    pub open spec fn description(self) -> Seq<char> {
        "Instruction(addr=0x"@ + spec_hex(self.address as nat, 1) + ", size="@ + spec_decimal(
            self.size,
        ) + ", text='"@ + self.text() + "', raw="@ + spec_byte_list(self.raw) + ", group="@
            + self.group.spec_name() + ")"@
    }
}

impl Instruction {
    /// The instruction described in one line.
    pub fn to_string(&self) -> (s: String)
        ensures
            s@ == self@.description(),
    {
        let mut s = String::from_str("Instruction(addr=0x");
        let address = format_hex(self.address, 1);
        s.append(address.as_str());
        s.append(", size=");
        let size = format_decimal(self.size as u64);
        s.append(size.as_str());
        s.append(", text='");
        let text = self.text(false);
        s.append(text.as_str());
        s.append("', raw=");
        let raw = format_byte_list(&self.raw);
        s.append(raw.as_str());
        s.append(", group=");
        let group = self.group.to_string();
        s.append(group.as_str());
        s.append(")");
        s
    }
}

/// The sum of the sizes of a run of instructions.
pub open spec fn total_size(insns: Seq<InstructionModel>) -> nat
    decreases insns.len(),
{
    if insns.len() == 0 {
        0
    } else {
        total_size(insns.drop_last()) + insns.last().size
    }
}

/// The bytes of a run of instructions, one instruction after the other.
pub open spec fn concat_raw(insns: Seq<InstructionModel>) -> Seq<u8>
    decreases insns.len(),
{
    if insns.len() == 0 {
        Seq::empty()
    } else {
        concat_raw(insns.drop_last()) + insns.last().raw
    }
}

/// The text of a run of instructions: each instruction followed by ` ;`, with a space
/// between one instruction and the next.
pub open spec fn spec_gadget_text(insns: Seq<InstructionModel>) -> Seq<char>
    decreases insns.len(),
{
    if insns.len() == 0 {
        Seq::empty()
    } else if insns.len() == 1 {
        insns.last().text() + " ;"@
    } else {
        spec_gadget_text(insns.drop_last()) + " "@ + insns.last().text() + " ;"@
    }
}

/// A run of texts, each by its view.
pub open spec fn texts_view(texts: Seq<String>) -> Seq<Seq<char>> {
    texts.map_values(|t: String| t@)
}

/// The texts of a run of instructions joined to the text of a gadget: each text followed
/// by ` ;`, with a space between one instruction and the next.
pub open spec fn spec_join_insns(texts: Seq<Seq<char>>) -> Seq<char>
    decreases texts.len(),
{
    if texts.len() == 0 {
        Seq::empty()
    } else if texts.len() == 1 {
        texts.last() + " ;"@
    } else {
        spec_join_insns(texts.drop_last()) + " "@ + texts.last() + " ;"@
    }
}

/// The texts of the instructions of a run, joined, are the text of the run.
pub proof fn lemma_join_insns(texts: Seq<Seq<char>>, insns: Seq<InstructionModel>)
    requires
        texts.len() == insns.len(),
        forall|i: int| 0 <= i < texts.len() ==> #[trigger] texts[i] == insns[i].text(),
    ensures
        spec_join_insns(texts) == spec_gadget_text(insns),
    decreases texts.len(),
{
    if texts.len() > 0 {
        lemma_join_insns(texts.drop_last(), insns.drop_last());
    }
}

/// Whether `text` is the text of a gadget with the parts of its instructions painted in
/// some way: the texts of its instructions, each with its parts painted, joined as the
/// texts of the instructions of a gadget are.
pub open spec fn is_painted_gadget_text(text: Seq<char>, g: GadgetModel) -> bool {
    exists|texts: Seq<Seq<char>>|
        {
            &&& texts.len() == g.insns.len()
            &&& forall|i: int|
                0 <= i < texts.len() ==> is_painted_text(#[trigger] texts[i], g.insns[i])
            &&& text == #[trigger] spec_join_insns(texts)
        }
}

/// Joins the texts of the instructions of a gadget to the text of the gadget: each text
/// followed by ` ;`, with a space between one instruction and the next.
pub fn join_insns(texts: &Vec<String>) -> (s: String)
    ensures
        s@ == spec_join_insns(texts_view(texts@)),
{
    let ghost views = texts_view(texts@);
    let mut s = String::new();
    let mut i: usize = 0;
    assert(views.take(0) =~= Seq::<Seq<char>>::empty());
    while i < texts.len()
        invariant
            i <= texts@.len(),
            views == texts_view(texts@),
            s@ == spec_join_insns(views.take(i as int)),
        decreases texts@.len() - i,
    {
        let ghost before = s@;
        if i > 0 {
            s.append(" ");
        }
        s.append(texts[i].as_str());
        s.append(" ;");
        proof {
            assert(views.take(i + 1).drop_last() =~= views.take(i as int));
            assert(views.take(i + 1).last() == texts@[i as int]@);
            if i == 0 {
                assert(s@ =~= texts@[i as int]@ + " ;"@);
            } else {
                assert(s@ =~= before + " "@ + texts@[i as int]@ + " ;"@);
            }
        }
        i = i + 1;
    }
    assert(views.take(i as int) =~= views);
    s
}

/// Where every instruction states the number of its bytes, the sizes add up to the number
/// of bytes of the whole run.
pub proof fn lemma_total_size_is_raw_len(insns: Seq<InstructionModel>)
    requires
        forall|i: int| 0 <= i < insns.len() ==> (#[trigger] insns[i]).size == insns[i].raw.len(),
    ensures
        total_size(insns) == concat_raw(insns).len(),
    decreases insns.len(),
{
    if insns.len() > 0 {
        lemma_total_size_is_raw_len(insns.drop_last());
    }
}

/// A short run of instructions that ends in a control transfer.
#[derive(Debug, PartialEq, Clone)]
pub struct Gadget {
    pub address: u64,
    pub insns: Vec<Instruction>,
    /// The sum of the sizes of the instructions.
    pub size: usize,
    /// The bytes of the instructions, one instruction after the other.
    pub raw: Vec<u8>,
}

/// A gadget as mathematical values.
pub struct GadgetModel {
    pub address: u64,
    pub insns: Seq<InstructionModel>,
    pub size: nat,
    pub raw: Seq<u8>,
}

impl GadgetModel {
    /// A gadget has at least one instruction, starts where its first instruction starts, and
    /// holds the bytes of its instructions and their number.
    pub open spec fn wf(self) -> bool {
        &&& self.insns.len() > 0
        &&& self.address == self.insns[0].address
        &&& self.size == total_size(self.insns)
        &&& self.raw == concat_raw(self.insns)
        &&& self.size == self.raw.len()
    }

    pub open spec fn text(self) -> Seq<char> {
        spec_gadget_text(self.insns)
    }

    /// The gadget described in one line: its address in hexadecimal digits and its text.
    pub open spec fn description(self) -> Seq<char> {
        "Gadget(addr=0x"@ + spec_hex(self.address as nat, 1) + ", text='"@ + self.text() + "')"@
    }
}

impl View for Gadget {
    type V = GadgetModel;

    open spec fn view(&self) -> GadgetModel {
        GadgetModel {
            address: self.address,
            insns: insns_view(self.insns@),
            size: self.size as nat,
            raw: self.raw@,
        }
    }
}

/// The models of a run of gadgets, one for one.
pub open spec fn gadgets_view(gadgets: Seq<Gadget>) -> Seq<GadgetModel> {
    gadgets.map_values(|g: Gadget| g@)
}

impl Gadget {
    /// The gadget made of the instructions given, in their order.
    pub fn new(insns: Vec<Instruction>) -> (g: Self)
        requires
            insns@.len() > 0,
            forall|i: int| 0 <= i < insns@.len() ==> (#[trigger] insns@[i]).size == insns@[i].raw@.len(),
        ensures
            g.insns == insns,
            g@.wf(),
    {
        let ghost models = insns_view(insns@);
        let mut raw: Vec<u8> = Vec::new();
        let mut i: usize = 0;
        assert(models.take(0) =~= Seq::<InstructionModel>::empty());
        while i < insns.len()
            invariant
                i <= insns@.len(),
                models == insns_view(insns@),
                raw@ == concat_raw(models.take(i as int)),
            decreases insns@.len() - i,
        {
            let insn = &insns[i];
            let ghost before = raw@;
            let mut j: usize = 0;
            while j < insn.raw.len()
                invariant
                    j <= insn.raw@.len(),
                    raw@ == before + insn.raw@.take(j as int),
                decreases insn.raw@.len() - j,
            {
                raw.push(insn.raw[j]);
                j = j + 1;
                assert(raw@ =~= before + insn.raw@.take(j as int));
            }
            assert(insn.raw@.take(j as int) =~= insn.raw@);
            assert(models.take(i + 1).drop_last() =~= models.take(i as int));
            assert(models.take(i + 1).last() == insn@);
            i = i + 1;
        }
        assert(models.take(i as int) =~= models);
        proof {
            lemma_total_size_is_raw_len(models);
        }
        let size: usize = raw.len();
        let address: u64 = insns[0].address;
        Gadget { size, raw, address, insns }
    }

    /// The gadget made of the instructions given, unless there is no instruction or one that
    /// does not state the number of its bytes.
    pub fn try_new(insns: Vec<Instruction>) -> (r: Result<Self, GadgetBuildError>)
        ensures
            r is Ok <==> insns@.len() > 0 && forall|i: int|
                0 <= i < insns@.len() ==> (#[trigger] insns@[i]).size == insns@[i].raw@.len(),
            r is Ok ==> r->Ok_0.insns == insns && r->Ok_0@.wf(),
    {
        if insns.len() == 0 {
            return Err(GadgetBuildError {  });
        }
        let mut i: usize = 0;
        while i < insns.len()
            invariant
                i <= insns@.len(),
                forall|j: int| 0 <= j < i ==> (#[trigger] insns@[j]).size == insns@[j].raw@.len(),
            decreases insns@.len() - i,
        {
            if insns[i].size != insns[i].raw.len() {
                return Err(GadgetBuildError {  });
            }
            i = i + 1;
        }
        Ok(Gadget::new(insns))
    }

    /// The gadget described in one line.
    pub fn to_string(&self) -> (s: String)
        ensures
            s@ == self@.description(),
    {
        let mut s = String::from_str("Gadget(addr=0x");
        let address = format_hex(self.address, 1);
        s.append(address.as_str());
        s.append(", text='");
        let text = self.text(false);
        s.append(text.as_str());
        s.append("')");
        s
    }

    /// The gadget as text: each instruction followed by ` ;`, with a space between one
    /// instruction and the next. With `use_color` the parts of each instruction are first
    /// painted for a terminal.
    pub fn text(&self, use_color: bool) -> (s: String)
        ensures
            !use_color ==> s@ == self@.text(),
            use_color ==> is_painted_gadget_text(s@, self@),
    {
        let ghost models = insns_view(self.insns@);
        let mut texts: Vec<String> = Vec::new();
        let mut i: usize = 0;
        while i < self.insns.len()
            invariant
                i <= self.insns@.len(),
                models == insns_view(self.insns@),
                texts@.len() == i,
                !use_color ==> forall|k: int|
                    0 <= k < i ==> (#[trigger] texts@[k])@ == models[k].text(),
                use_color ==> forall|k: int|
                    0 <= k < i ==> is_painted_text((#[trigger] texts@[k])@, models[k]),
            decreases self.insns@.len() - i,
        {
            let t = self.insns[i].text(use_color);
            assert(models[i as int] == self.insns@[i as int]@);
            texts.push(t);
            i = i + 1;
        }
        let s = join_insns(&texts);
        proof {
            let views = texts_view(texts@);
            if use_color {
                assert forall|k: int| 0 <= k < views.len() implies is_painted_text(
                    #[trigger] views[k],
                    self@.insns[k],
                ) by {
                    assert(views[k] == texts@[k]@);
                }
                assert(s@ == spec_join_insns(views));
            } else {
                assert forall|k: int| 0 <= k < views.len() implies #[trigger] views[k]
                    == models[k].text() by {
                    assert(views[k] == texts@[k]@);
                }
                lemma_join_insns(views, models);
            }
        }
        s
    }
}

/// Searches a run of bytes for the patterns of a group, under the strategy of the session.
pub fn collect_previous_instructions(
    session: &Session,
    group: &Vec<(Vec<u8>, Vec<u8>)>,
    memory_chunk: &Vec<u8>,
) -> (r: GenericResult<Vec<(usize, usize)>>)
    requires
        patterns_wf(patterns_view(group@)),
    ensures
        r is Ok,
        r->Ok_0@ == candidates(
            memory_chunk@,
            patterns_view(group@),
            session.profile_type == RopProfileStrategy::Fast,
            0,
            memory_chunk@.len() as int,
        ),
{
    Ok(scan_patterns(session.profile_type, group, memory_chunk, 0, memory_chunk.len()))
}

/// Offset in a section at which the bytes taken into account before a terminator at `pos`
/// start: `rewind` bytes before it, or at the start of the section.
pub open spec fn window_start(pos: int, rewind: int) -> int {
    if pos < rewind {
        0
    } else {
        pos - rewind
    }
}

/// Whether a terminator of `len` bytes at offset `pos` lies inside the section, at addresses
/// that exist.
pub open spec fn terminator_in_section(section: SectionModel, pos: int, len: int) -> bool {
    &&& 0 <= pos
    &&& 0 < len
    &&& pos + len <= section.data.len()
    &&& section.start_address + pos + len <= u64::MAX
}

/// What holds of a gadget found in a section between the addresses `lo` and `hi`, for a
/// search by `group` that takes at most `max_insns` instructions into a gadget and reaches at
/// most `max_size` bytes back from `hi`.
pub open spec fn is_gadget_between(
    g: GadgetModel,
    group: InstructionGroup,
    section: SectionModel,
    lo: int,
    hi: int,
    max_insns: int,
    max_size: int,
) -> bool {
    &&& g.wf()
    &&& laid_out(g.insns, lo, hi)
    &&& reads_from(g.insns, section.data, section.start_address as int)
    &&& g.insns.last().group == group
    &&& forall|i: int|
        0 <= i < g.insns.len() - 1 ==> !(#[trigger] g.insns[i]).group.spec_is_disqualifying()
    &&& g.insns.len() <= max_insns
    &&& hi - g.address <= max_size
}

/// What holds of the gadgets found before one terminator of a section.
pub open spec fn are_gadgets_before(
    gadgets: Seq<Gadget>,
    group: InstructionGroup,
    section: SectionModel,
    lo: int,
    hi: int,
    max_insns: int,
    max_size: int,
) -> bool {
    &&& forall|i: int|
        0 <= i < gadgets.len() ==> is_gadget_between(
            (#[trigger] gadgets[i])@,
            group,
            section,
            lo,
            hi,
            max_insns,
            max_size,
        )
    &&& forall|i: int, j: int|
        0 <= i < j < gadgets.len() ==> (#[trigger] gadgets[i]).address != (
        #[trigger] gadgets[j]).address
}

/// The number of bytes that the walk before the terminator of `len` bytes at offset `pos`
/// takes into account: the terminator and the rewind before it, as far as the section has
/// it.
pub open spec fn spec_window(profile: CpuProfile, pos: int, len: int) -> nat {
    (pos + len - window_start(pos, profile.max_rewind_size as int)) as nat
}

/// Whether the walk before the terminator of `len` bytes at offset `pos` asks the
/// disassembler once more.
pub open spec fn spec_walk_asks(
    walk: WalkModel,
    session: Session,
    profile: CpuProfile,
    pos: int,
    len: int,
) -> bool {
    profile.insn_step >= 1 && spec_walk_goes_on(
        walk,
        spec_window(profile, pos, len),
        session.max_gadget_size as nat,
    )
}

/// At most so many times the walk asks the disassembler from here on.
pub open spec fn spec_walk_left(
    walk: WalkModel,
    session: Session,
    profile: CpuProfile,
    pos: int,
    len: int,
) -> nat {
    if spec_walk_asks(walk, session, profile, pos, len) {
        (spec_window(profile, pos, len) - walk.size + 1) as nat
    } else {
        0
    }
}

/// What a disassembler answers, as a function of the code and the address.
pub open spec fn answers_of<D: Disassembler>(engine: D) -> spec_fn(Seq<u8>, u64) -> Option<
    Seq<InstructionModel>,
> {
    |code: Seq<u8>, address: u64| engine.answer(code, address)
}

/// The walk before the terminator of `len` bytes at offset `pos` of a section, from `walk`
/// on to its end, with a disassembler that answers as `answers` says.
///
/// As long as the walk asks, the disassembler is asked about the run that ends with the
/// terminator and has the size of the walk, at the address of that run, and its answer is
/// taken into the walk.
pub open spec fn spec_walk_to_end(
    answers: spec_fn(Seq<u8>, u64) -> Option<Seq<InstructionModel>>,
    walk: WalkModel,
    session: Session,
    profile: CpuProfile,
    section: SectionModel,
    pos: int,
    len: int,
) -> WalkModel
    decreases spec_walk_left(walk, session, profile, pos, len),
{
    if spec_walk_asks(walk, session, profile, pos, len) {
        let end = pos + len;
        let answer = answers(
            section.data.subrange(end - walk.size, end),
            (section.start_address + end - walk.size) as u64,
        );
        spec_walk_to_end(
            answers,
            spec_walk_step(
                walk,
                answer,
                session.gadget_type,
                session.max_gadget_length as nat,
                profile.max_rewind_size as nat,
                profile.insn_step as nat,
            ),
            session,
            profile,
            section,
            pos,
            len,
        )
    } else {
        walk
    }
}

/// The gadgets that end with the terminator of `len` bytes at offset `pos` of a section,
/// as a disassembler that answers as `answers` says gives them: those of the walk before
/// the terminator, in the order in which the walk finds them, and none for a terminator
/// that does not lie inside the section.
pub open spec fn spec_gadgets_before(
    answers: spec_fn(Seq<u8>, u64) -> Option<Seq<InstructionModel>>,
    session: Session,
    profile: CpuProfile,
    section: SectionModel,
    pos: int,
    len: int,
) -> Seq<GadgetModel> {
    if terminator_in_section(section, pos, len) {
        spec_walk_to_end(
            answers,
            spec_walk_start(len as nat),
            session,
            profile,
            section,
            pos,
            len,
        ).gadgets
    } else {
        Seq::empty()
    }
}

/// Finds the gadgets that end with the terminator of `initial_len` bytes at offset
/// `initial_position` of the section.
///
/// The bytes from at most `max_rewind_size` bytes before the terminator up to its end are
/// taken into account. Ever longer runs of them that end with the terminator are handed to
/// the disassembler, the first as long as the terminator and each one stride longer than
/// the one before, and each answer is taken into the walk. The walk also stops where the
/// run would pass the start of those bytes or the largest size of a gadget.
///
/// A terminator that does not lie inside the section gives no gadget.
pub fn find_gadgets_from_position<D: Disassembler, C: Cpu>(
    session: &Session,
    engine: &D,
    section: &Section,
    initial_position: usize,
    initial_len: usize,
    cpu: &C,
) -> (r: GenericResult<Vec<Gadget>>)
    ensures
        r is Ok,
        !terminator_in_section(section@, initial_position as int, initial_len as int)
            ==> r->Ok_0@.len() == 0,
        gadgets_view(r->Ok_0@) == spec_gadgets_before(
            answers_of(*engine),
            *session,
            cpu.profile(),
            section@,
            initial_position as int,
            initial_len as int,
        ),
        are_gadgets_before(
            r->Ok_0@,
            session.gadget_type,
            section@,
            section.start_address + window_start(
                initial_position as int,
                cpu.profile().max_rewind_size as int,
            ),
            section.start_address + initial_position + initial_len,
            session.max_gadget_length as int,
            session.max_gadget_size as int,
        ),
{
    let max_invalid_size: usize = cpu.max_rewind_size();
    let step: usize = cpu.insn_step();
    proof {
        cpu.profile_is_valid();
    }
    let data_len: usize = section.data.len();
    if initial_len == 0 || initial_position > data_len || initial_len > data_len - initial_position {
        let none: Vec<Gadget> = Vec::new();
        assert(gadgets_view(none@) =~= Seq::<GadgetModel>::empty());
        return Ok(none);
    }
    let s: usize = if initial_position < max_invalid_size {
        0
    } else {
        initial_position - max_invalid_size
    };
    let end: usize = initial_position + initial_len;
    if end as u64 > u64::MAX - section.start_address {
        let none: Vec<Gadget> = Vec::new();
        assert(gadgets_view(none@) =~= Seq::<GadgetModel>::empty());
        return Ok(none);
    }
    let end_address: u64 = section.start_address + end as u64;
    let window: usize = end - s;
    let ghost lo = section.start_address + s;
    let ghost hi = section.start_address + end;

    // browse the section for the largest gadget
    let mut walk = Walk { size: initial_len, invalid_run: 0, gadgets: Vec::new(), stopped: false };
    let ghost answers = answers_of(*engine);
    let ghost start = spec_walk_start(initial_len as nat);
    proof {
        assert(walk@.gadgets =~= Seq::<GadgetModel>::empty());
        assert(walk@ == start);
    }
    while !walk.stopped && walk.size <= window && walk.size <= session.max_gadget_size
        invariant
            step >= 1,
            step == cpu.profile().insn_step,
            max_invalid_size == cpu.profile().max_rewind_size,
            end == initial_position + initial_len,
            window == spec_window(cpu.profile(), initial_position as int, initial_len as int),
            answers == answers_of(*engine),
            spec_walk_to_end(
                answers,
                walk@,
                *session,
                cpu.profile(),
                section@,
                initial_position as int,
                initial_len as int,
            ) == spec_walk_to_end(
                answers,
                start,
                *session,
                cpu.profile(),
                section@,
                initial_position as int,
                initial_len as int,
            ),
            s <= end <= data_len,
            data_len == section.data@.len(),
            window == end - s,
            end_address == section.start_address + end,
            lo == section.start_address + s,
            hi == section.start_address + end,
            !walk.stopped ==> walk.invalid_run < walk.size,
            are_gadgets_before(
                walk.gadgets@,
                session.gadget_type,
                section@,
                lo,
                hi,
                session.max_gadget_length as int,
                session.max_gadget_size as int,
            ),
        decreases
                (if !walk.stopped && walk.size <= window {
                    window - walk.size + 1
                } else {
                    0
                }),
    {
        let candidate: Vec<u8> = slice_to_vec(
            slice_subrange(section.data.as_slice(), end - walk.size, end),
        );
        let addr: u64 = end_address - walk.size as u64;

        // disassemble the code from given position
        let insns = engine.disassemble(&candidate, addr);

        let ghost before = walk.gadgets@;
        let ghost asked = walk@;
        proof {
            assert(candidate@ == section@.data.subrange(end - asked.size, end as int));
            assert(answer_view(insns) == answers(candidate@, addr));
            if insns is Some {
                let decoded = insns_view(insns->0@);
                assert forall|i: int| 0 <= i < insns->0@.len() implies (#[trigger] insns->0@[i]).size
                    == insns->0@[i].raw@.len() by {
                    assert(decoded[i].wf());
                }
                if decoded.len() > 0 {
                    lemma_gadget_of_decoding(
                        decoded,
                        candidate@,
                        addr as int,
                        section.data@,
                        section.start_address as int,
                    );
                    lemma_total_size_is_raw_len(spec_gadget_insns(decoded));
                }
            }
        }
        walk_step(
            &mut walk,
            insns,
            session.gadget_type,
            session.max_gadget_length,
            max_invalid_size,
            step,
        );
        proof {
            let after = walk.gadgets@;
            if gadgets_view(after) != gadgets_view(before) {
                let kept = spec_gadget_insns(insns_view(insns->0@));
                let gadget = spec_gadget_of(kept);
                assert(gadgets_view(after) == gadgets_view(before).push(gadget));
                assert(after.len() == before.len() + 1);
                assert forall|i: int| 0 <= i < before.len() implies (#[trigger] after[i])@
                    == before[i]@ by {
                    assert(gadgets_view(after)[i] == gadgets_view(before).push(gadget)[i]);
                    assert(gadgets_view(before)[i] == before[i]@);
                }
                assert(after[before.len() as int]@ == gadget) by {
                    assert(gadgets_view(after)[before.len() as int] == gadget);
                }
                assert(laid_out(gadget.insns, addr as int, addr + candidate@.len()));
                lemma_laid_out_ascends(
                    gadget.insns,
                    addr as int,
                    addr + candidate@.len(),
                    0,
                    gadget.insns.len() - 1,
                );
                assert(laid_out(gadget.insns, lo, hi));
                assert forall|i: int| 0 <= i < before.len() implies (#[trigger] after[i]).address
                    != after[before.len() as int].address by {
                    assert(gadgets_view(before)[i].address == before[i].address);
                }
                assert forall|i: int, j: int| 0 <= i < j < after.len() implies (
                #[trigger] after[i]).address != (#[trigger] after[j]).address by {
                    if j < before.len() {
                        assert(after[i]@ == before[i]@ && after[j]@ == before[j]@);
                    }
                }
            } else {
                assert(after.len() == before.len()) by {
                    assert(gadgets_view(after).len() == gadgets_view(before).len());
                }
                assert forall|i: int| 0 <= i < after.len() implies (#[trigger] after[i])@
                    == before[i]@ by {
                    assert(gadgets_view(after)[i] == gadgets_view(before)[i]);
                }
            }
        }
    }
    let found = walk.gadgets;
    Ok(found)
}

/// The patterns that a profile holds for a group, if gadgets can be searched by it.
pub open spec fn spec_group_patterns(profile: CpuProfile, group: InstructionGroup) -> Option<
    Seq<PatternModel>,
> {
    match group {
        InstructionGroup::Ret => Some(profile.returns),
        InstructionGroup::Call => Some(profile.calls),
        InstructionGroup::Jump => Some(profile.jumps),
        _ => None,
    }
}

/// The terminators of the chunk of a section that starts at `cursor`: the matches of the
/// patterns that the CPU profile holds for the group searched, each as its offset in the
/// section and its length. A terminator belongs to the chunk in which it starts.
pub open spec fn spec_positions(
    session: Session,
    profile: CpuProfile,
    section: SectionModel,
    cursor: int,
) -> Seq<(usize, usize)> {
    candidates(
        section.data,
        spec_group_patterns(profile, session.gadget_type)->0,
        session.profile_type == RopProfileStrategy::Fast,
        spec_chunk_start(section.data.len() as int, cursor),
        spec_chunk_end(section.data.len() as int, session.nb_thread as int, cursor),
    )
}

/// Searches the chunk of a section that starts at `cursor` for the terminators of the group
/// that the session asks for. There are none to search for by a group that is no terminator.
pub fn get_all_valid_positions_and_length<C: Cpu>(
    session: &Session,
    cpu: &C,
    section: &Section,
    cursor: usize,
) -> (r: GenericResult<Vec<(usize, usize)>>)
    ensures
        !session.gadget_type.spec_is_terminator() ==> r is Err && r->Err_0 == Error::GenericError(
            "No pattern for this group of instructions",
        ),
        session.gadget_type.spec_is_terminator() ==> r is Ok && r->Ok_0@ == spec_positions(
            *session,
            cpu.profile(),
            section@,
            cursor as int,
        ),
{
    let groups = match session.gadget_type {
        InstructionGroup::Ret => cpu.ret_insns(),
        InstructionGroup::Call => cpu.call_insns(),
        InstructionGroup::Jump => cpu.jmp_insns(),
        _ => {
            return Err(Error::GenericError("No pattern for this group of instructions"));
        },
    };
    proof {
        cpu.profile_is_valid();
    }
    let len: usize = section.data.len();
    let chunk: usize = chunk_size(len, session.nb_thread);
    let lo: usize = if cursor < len {
        cursor
    } else {
        len
    };
    let hi: usize = if chunk < len - lo {
        lo + chunk
    } else {
        len
    };
    Ok(scan_patterns(session.profile_type, &groups, &section.data, lo, hi))
}

} // verus!
