//! What holds of every gadget that a search finds, and of two searches that are alike.
use vstd::prelude::*;
use crate::cpu::CpuProfile;
use crate::engine::{lemma_laid_out_ascends, lemma_laid_out_bytes, lemma_laid_out_size};
use crate::format::ExecutableFileFormat;
use crate::gadget::{
    gadgets_view, spec_positions, spec_walk_asks, spec_walk_left, spec_walk_to_end, total_size,
    window_start, Gadget, GadgetModel, InstructionGroup, InstructionModel,
};
use crate::section::SectionModel;
use crate::session::{
    found_before, found_by_worker, found_in_session, is_search_result, is_worker_result,
    lemma_worker_result, spec_capstone_answers, spec_gadgets_before_each, spec_joined,
    spec_profile_of, spec_schedule, spec_session_cpu, spec_worker_gadgets,
    spec_worker_may_search, Session,
};
use crate::walker::{spec_walk_start, spec_walk_step, WalkModel};
use crate::is_session_output;

verus! {

/// Whether `g` is a gadget of the session that ends with the terminator of `len` bytes at
/// offset `pos` of its executable section `section_index`.
pub open spec fn found_in_section(
    g: GadgetModel,
    session: Session,
    section_index: int,
    pos: int,
    len: int,
) -> bool {
    let image = session.info.format.model();
    &&& spec_profile_of(spec_session_cpu(session)) is Some
    &&& 0 <= section_index < image.sections.len()
    &&& image.sections[section_index].executable()
    &&& found_before(
        g,
        session,
        spec_profile_of(spec_session_cpu(session))->0,
        image.sections[section_index],
        pos,
        len,
    )
}

/// Every gadget that a run of the workers of a session finds ends with a terminator of an
/// executable section of the binary.
pub proof fn lemma_found_in_session(g: GadgetModel, session: Session)
    requires
        found_in_session(g, session),
    ensures
        exists|k: int, pos: int, len: int| #[trigger] found_in_section(g, session, k, pos, len),
{
    let (k, c) = choose|k: int, c: int| #[trigger] found_by_worker(g, session, k, c);
    let image = session.info.format.model();
    let profile = spec_profile_of(spec_session_cpu(session))->0;
    let positions = spec_positions(session, profile, image.sections[k], c);
    let j = choose|j: int|
        0 <= j < positions.len() && #[trigger] found_before(
            g,
            session,
            profile,
            image.sections[k],
            positions[j].0 as int,
            positions[j].1 as int,
        );
    assert(found_in_section(g, session, k, positions[j].0 as int, positions[j].1 as int));
}

/// A gadget found before a terminator ends in an instruction of the group that
/// the session searches by.
pub proof fn lemma_gadget_terminator(
    g: GadgetModel,
    session: Session,
    profile: CpuProfile,
    section: SectionModel,
    pos: int,
    len: int,
)
    requires
        found_before(g, session, profile, section, pos, len),
    ensures
        g.insns.len() > 0,
        g.insns[g.insns.len() - 1].group == session.gadget_type,
{
}

/// No instruction of a gadget before its last one is a jump, a call, a return, an
/// interrupt, a return from interrupt or a privileged instruction.
pub proof fn lemma_gadget_purity(
    g: GadgetModel,
    session: Session,
    profile: CpuProfile,
    section: SectionModel,
    pos: int,
    len: int,
    i: int,
)
    requires
        found_before(g, session, profile, section, pos, len),
        0 <= i < g.insns.len() - 1,
    ensures
        g.insns[i].group != InstructionGroup::Jump,
        g.insns[i].group != InstructionGroup::Call,
        g.insns[i].group != InstructionGroup::Ret,
        g.insns[i].group != InstructionGroup::Int,
        g.insns[i].group != InstructionGroup::Iret,
        g.insns[i].group != InstructionGroup::Privileged,
{
    assert(!g.insns[i].group.spec_is_disqualifying());
}

/// The sizes of the instructions of a gadget add up to the number of its bytes,
/// and each instruction starts where the one before it ends.
pub proof fn lemma_gadget_contiguity(
    g: GadgetModel,
    session: Session,
    profile: CpuProfile,
    section: SectionModel,
    pos: int,
    len: int,
)
    requires
        found_before(g, session, profile, section, pos, len),
    ensures
        total_size(g.insns) == g.raw.len(),
        g.size == g.raw.len(),
        forall|k: int|
            0 <= k < g.insns.len() - 1 ==> (#[trigger] g.insns[k + 1]).address == g.insns[k].address
                + g.insns[k].size,
{
}

/// A gadget starts where its first instruction starts, and that is inside the
/// section in which it was found.
pub proof fn lemma_gadget_address(
    g: GadgetModel,
    session: Session,
    profile: CpuProfile,
    section: SectionModel,
    pos: int,
    len: int,
)
    requires
        found_before(g, session, profile, section, pos, len),
    ensures
        g.address == g.insns[0].address,
        section.start_address <= g.address < section.start_address + section.data.len(),
{
    let lo = section.start_address + window_start(pos, profile.max_rewind_size as int);
    let hi = section.start_address + pos + len;
    lemma_laid_out_ascends(g.insns, lo, hi, 0, g.insns.len() - 1);
    assert(g.insns[0].wf());
}

/// A gadget starts no further before its terminator than the rewind of the
/// CPU profile allows, and ends no later than its terminator does.
pub proof fn lemma_gadget_rewind(
    g: GadgetModel,
    session: Session,
    profile: CpuProfile,
    section: SectionModel,
    pos: int,
    len: int,
)
    requires
        found_before(g, session, profile, section, pos, len),
    ensures
        g.address >= section.start_address + pos - profile.max_rewind_size,
        g.address + g.size <= section.start_address + pos + len,
{
    let lo = section.start_address + window_start(pos, profile.max_rewind_size as int);
    let hi = section.start_address + pos + len;
    lemma_laid_out_ascends(g.insns, lo, hi, 0, g.insns.len() - 1);
    lemma_laid_out_size(g.insns, lo, hi);
}

/// A gadget has no more instructions than the session allows, and
/// reaches no more bytes back from the end of its terminator than the session allows.
pub proof fn lemma_gadget_limits(
    g: GadgetModel,
    session: Session,
    profile: CpuProfile,
    section: SectionModel,
    pos: int,
    len: int,
)
    requires
        found_before(g, session, profile, section, pos, len),
    ensures
        g.insns.len() <= session.max_gadget_length,
        g.size <= session.max_gadget_size,
        g.address >= section.start_address + pos + len - session.max_gadget_size,
{
    let lo = section.start_address + window_start(pos, profile.max_rewind_size as int);
    let hi = section.start_address + pos + len;
    lemma_laid_out_ascends(g.insns, lo, hi, 0, g.insns.len() - 1);
    lemma_laid_out_size(g.insns, lo, hi);
}

/// The bytes of a gadget are the bytes that the section holds where the gadget lies.
pub proof fn lemma_gadget_bytes(
    g: GadgetModel,
    session: Session,
    profile: CpuProfile,
    section: SectionModel,
    pos: int,
    len: int,
)
    requires
        found_before(g, session, profile, section, pos, len),
    ensures
        g.raw == section.data.subrange(
            g.address - section.start_address,
            g.address - section.start_address + g.size,
        ),
{
    let lo = section.start_address + window_start(pos, profile.max_rewind_size as int);
    let hi = section.start_address + pos + len;
    lemma_laid_out_bytes(g.insns, lo, hi, section.data, section.start_address as int);
    lemma_laid_out_size(g.insns, lo, hi);
}

/// What holds of every gadget that a run of the workers of a session finds: it lies in an
/// executable section of the binary, starts where its first instruction starts, ends in an
/// instruction of the group searched, holds no other instruction that transfers control or
/// changes mode, and its instructions follow each other without a gap.
pub proof fn lemma_session_gadget(g: GadgetModel, session: Session)
    requires
        found_in_session(g, session),
    ensures
        g.wf(),
        g.insns[g.insns.len() - 1].group == session.gadget_type,
        forall|i: int|
            0 <= i < g.insns.len() - 1 ==> !(#[trigger] g.insns[i]).group.spec_is_disqualifying(),
        forall|k: int|
            0 <= k < g.insns.len() - 1 ==> (#[trigger] g.insns[k + 1]).address == g.insns[k].address
                + g.insns[k].size,
        g.insns.len() <= session.max_gadget_length,
        exists|k: int|
            0 <= k < session.info.format.model().sections.len() && (
            #[trigger] session.info.format.model().sections[k]).executable()
                && session.info.format.model().sections[k].start_address <= g.address
                < session.info.format.model().sections[k].start_address
                + session.info.format.model().sections[k].data.len(),
{
    let (k, c) = choose|k: int, c: int| #[trigger] found_by_worker(g, session, k, c);
    let image = session.info.format.model();
    let profile = spec_profile_of(spec_session_cpu(session))->0;
    let section = image.sections[k];
    let positions = spec_positions(session, profile, section, c);
    let j = choose|j: int|
        0 <= j < positions.len() && #[trigger] found_before(
            g,
            session,
            profile,
            section,
            positions[j].0 as int,
            positions[j].1 as int,
        );
    lemma_gadget_address(g, session, profile, section, positions[j].0 as int, positions[j].1 as int);
    assert(image.sections[k].executable());
}

/// Every gadget that a worker hands back starts no further before one of the terminators
/// of its chunk than the rewind of the CPU profile allows, and ends no later than that
/// terminator does.
pub proof fn lemma_worker_rewind(
    gadgets: Seq<Gadget>,
    session: Session,
    section_index: int,
    cursor: int,
    i: int,
)
    requires
        is_worker_result(gadgets, session, section_index, cursor),
        0 <= i < gadgets.len(),
    ensures
        ({
            let profile = spec_profile_of(spec_session_cpu(session))->0;
            let section = session.info.format.model().sections[section_index];
            let terminators = spec_positions(session, profile, section, cursor);
            exists|j: int|
                0 <= j < terminators.len() && gadgets[i].address >= section.start_address + (
                #[trigger] terminators[j]).0 - profile.max_rewind_size && gadgets[i].address
                    + gadgets[i].size <= section.start_address + terminators[j].0
                    + terminators[j].1
        }),
{
    let g = gadgets[i]@;
    let profile = spec_profile_of(spec_session_cpu(session))->0;
    let section = session.info.format.model().sections[section_index];
    let terminators = spec_positions(session, profile, section, cursor);
    lemma_worker_result(gadgets, session, section_index, cursor, i);
    let j = choose|j: int|
        0 <= j < terminators.len() && #[trigger] found_before(
            g,
            session,
            profile,
            section,
            terminators[j].0 as int,
            terminators[j].1 as int,
        );
    lemma_gadget_rewind(g, session, profile, section, terminators[j].0 as int, terminators[j].1 as int);
}

/// Whether two sessions search alike: they hold the same binary and ask for the same CPU,
/// the same disassembler, the same group of terminators, the same strategy, the same
/// number of workers and the same limits.
pub open spec fn search_alike(a: Session, b: Session) -> bool {
    &&& a.info.format.model() == b.info.format.model()
    &&& a.architecture == b.architecture
    &&& a.engine_type == b.engine_type
    &&& a.gadget_type == b.gadget_type
    &&& a.profile_type == b.profile_type
    &&& a.nb_thread == b.nb_thread
    &&& a.max_gadget_length == b.max_gadget_length
    &&& a.max_gadget_size == b.max_gadget_size
}

/// A walk goes the same way for two sessions that search alike.
proof fn lemma_walk_alike(
    answers: spec_fn(Seq<u8>, u64) -> Option<Seq<InstructionModel>>,
    walk: WalkModel,
    a: Session,
    b: Session,
    profile: CpuProfile,
    section: SectionModel,
    pos: int,
    len: int,
)
    requires
        search_alike(a, b),
    ensures
        spec_walk_to_end(answers, walk, a, profile, section, pos, len) == spec_walk_to_end(
            answers,
            walk,
            b,
            profile,
            section,
            pos,
            len,
        ),
    decreases spec_walk_left(walk, a, profile, pos, len),
{
    if spec_walk_asks(walk, a, profile, pos, len) {
        let end = pos + len;
        let answer = answers(
            section.data.subrange(end - walk.size, end),
            (section.start_address + end - walk.size) as u64,
        );
        lemma_walk_alike(
            answers,
            spec_walk_step(
                walk,
                answer,
                a.gadget_type,
                a.max_gadget_length as nat,
                profile.max_rewind_size as nat,
                profile.insn_step as nat,
            ),
            a,
            b,
            profile,
            section,
            pos,
            len,
        );
    }
}

/// The gadgets before each of some terminators are the same for two sessions that search
/// alike.
proof fn lemma_before_each_alike(
    answers: spec_fn(Seq<u8>, u64) -> Option<Seq<InstructionModel>>,
    a: Session,
    b: Session,
    profile: CpuProfile,
    section: SectionModel,
    terminators: Seq<(usize, usize)>,
)
    requires
        search_alike(a, b),
    ensures
        spec_gadgets_before_each(answers, a, profile, section, terminators)
            == spec_gadgets_before_each(answers, b, profile, section, terminators),
    decreases terminators.len(),
{
    if terminators.len() > 0 {
        lemma_before_each_alike(answers, a, b, profile, section, terminators.drop_last());
        let len = terminators.last().1 as int;
        lemma_walk_alike(
            answers,
            spec_walk_start(len as nat),
            a,
            b,
            profile,
            section,
            terminators.last().0 as int,
            len,
        );
    }
}

/// The workers of two sessions that search alike find the same on the same chunk.
pub proof fn lemma_worker_alike(a: Session, b: Session, section_index: int, cursor: int)
    requires
        search_alike(a, b),
    ensures
        spec_worker_may_search(a, section_index, cursor) == spec_worker_may_search(
            b,
            section_index,
            cursor,
        ),
        spec_worker_gadgets(a, section_index, cursor) == spec_worker_gadgets(
            b,
            section_index,
            cursor,
        ),
{
    if spec_worker_may_search(a, section_index, cursor) {
        let profile = spec_profile_of(spec_session_cpu(a))->0;
        let section = a.info.format.model().sections[section_index];
        lemma_before_each_alike(
            spec_capstone_answers(spec_session_cpu(a)),
            a,
            b,
            profile,
            section,
            spec_positions(a, profile, section, cursor),
        );
    }
}

/// Runs that are the same one for one, by their views, are the same when joined.
proof fn lemma_joined_views(a: Seq<Seq<Gadget>>, b: Seq<Seq<Gadget>>)
    requires
        a.len() == b.len(),
        forall|w: int| 0 <= w < a.len() ==> gadgets_view(#[trigger] a[w]) == gadgets_view(b[w]),
    ensures
        gadgets_view(spec_joined(a)) == gadgets_view(spec_joined(b)),
    decreases a.len(),
{
    if a.len() == 0 {
        assert(gadgets_view(spec_joined(a)) =~= gadgets_view(spec_joined(b)));
    } else {
        lemma_joined_views(a.drop_last(), b.drop_last());
        assert(gadgets_view(spec_joined(a.drop_last()) + a.last()) =~= gadgets_view(
            spec_joined(a.drop_last()),
        ) + gadgets_view(a.last()));
        assert(gadgets_view(spec_joined(b.drop_last()) + b.last()) =~= gadgets_view(
            spec_joined(b.drop_last()),
        ) + gadgets_view(b.last()));
    }
}

/// Two searches that are alike find the same gadgets in the same order, where the workers
/// that hand back nothing are the same in both: a worker that gets its disassembler finds
/// what the binary and the session determine, and one that does not finds nothing.
pub proof fn lemma_search_repeats(
    found_a: Seq<Gadget>,
    results_a: Seq<Seq<Gadget>>,
    a: Session,
    found_b: Seq<Gadget>,
    results_b: Seq<Seq<Gadget>>,
    b: Session,
)
    requires
        search_alike(a, b),
        is_search_result(found_a, results_a, a),
        is_search_result(found_b, results_b, b),
        forall|w: int|
            0 <= w < results_a.len() ==> ((#[trigger] results_a[w]).len() == 0 <==> results_b[w].len()
                == 0),
    ensures
        gadgets_view(found_a) == gadgets_view(found_b),
{
    let sections = a.info.format.model().sections;
    let schedule = spec_schedule(sections, a.nb_thread as int, sections.len() as int);
    assert forall|w: int| 0 <= w < results_a.len() implies gadgets_view(#[trigger] results_a[w])
        == gadgets_view(results_b[w]) by {
        assert(is_worker_result(results_a[w], a, schedule[w].0, schedule[w].1 as int));
        assert(is_worker_result(results_b[w], b, schedule[w].0, schedule[w].1 as int));
        if results_a[w].len() == 0 {
            assert(gadgets_view(results_a[w]) =~= gadgets_view(results_b[w]));
        } else {
            lemma_worker_alike(a, b, schedule[w].0, schedule[w].1 as int);
        }
    }
    lemma_joined_views(results_a, results_b);
}

/// Two sessions that search alike, hold the same gadgets and ask for the same arrangement
/// hand out the same gadgets in the same order, where the workers that hand back nothing
/// are the same in both.
pub proof fn lemma_session_repeats(
    out_a: Seq<GadgetModel>,
    found_a: Seq<Gadget>,
    results_a: Seq<Seq<Gadget>>,
    a: Session,
    out_b: Seq<GadgetModel>,
    found_b: Seq<Gadget>,
    results_b: Seq<Seq<Gadget>>,
    b: Session,
)
    requires
        search_alike(a, b),
        a.unique_only == b.unique_only,
        gadgets_view(a.gadgets@) == gadgets_view(b.gadgets@),
        is_session_output(out_a, found_a, a),
        is_session_output(out_b, found_b, b),
        is_search_result(found_a, results_a, a),
        is_search_result(found_b, results_b, b),
        forall|w: int|
            0 <= w < results_a.len() ==> ((#[trigger] results_a[w]).len() == 0 <==> results_b[w].len()
                == 0),
    ensures
        out_a == out_b,
{
    lemma_search_repeats(found_a, results_a, a, found_b, results_b, b);
    assert(gadgets_view(a.gadgets@ + found_a) =~= gadgets_view(a.gadgets@) + gadgets_view(found_a));
    assert(gadgets_view(b.gadgets@ + found_b) =~= gadgets_view(b.gadgets@) + gadgets_view(found_b));
}

} // verus!
