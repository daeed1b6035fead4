//! Sessions: one configured search of one binary, its workers and the order in which they
//! run.
use vstd::prelude::*;
use vstd::string::*;
use crate::common::GenericResult;
use crate::cpu::{cpu_of, spec_cpu_of, Cpu, CpuProfile, CpuType};
use crate::engine::{spec_capstone_answer, Disassembler, DisassemblyEngine, DisassemblyEngineType};
use crate::error::Error;
use crate::format::{spec_load, ExecutableFileFormat, FileFormat};
use crate::gadget::{
    answers_of, are_gadgets_before, find_gadgets_from_position,
    get_all_valid_positions_and_length, gadgets_view, is_gadget_between, spec_gadgets_before,
    spec_positions, terminator_in_section, window_start, Gadget, GadgetModel, InstructionGroup,
    InstructionModel,
};
use crate::matcher::{chunk_size, spec_chunk_size};
use crate::numbers::{format_hex, spec_hex};
use crate::output::ascending_addresses;
use crate::section::{sections_view, Section, SectionModel};
use crate::{collect_all_gadgets, is_session_output};

verus! {

/// How many of the patterns of a group are tried on a run of bytes.
#[derive(Debug, Copy, Clone, PartialEq, Eq, PartialOrd, Ord, Structural)]
pub enum RopProfileStrategy {
    /// Stop at the first pattern that matches anywhere.
    Fast,
    /// Try every pattern.
    Complete,
}

impl Default for RopProfileStrategy {
    fn default() -> (s: Self)
        ensures
            s == RopProfileStrategy::Fast,
    {
        RopProfileStrategy::Fast
    }
}

impl RopProfileStrategy {
    pub open spec fn spec_name(self) -> Seq<char> {
        match self {
            RopProfileStrategy::Fast => "Fast"@,
            RopProfileStrategy::Complete => "Complete"@,
        }
    }

    /// The strategy as text, spelled as the variant is.
    pub fn to_string(&self) -> (s: String)
        ensures
            s@ == self.spec_name(),
    {
        match self {
            RopProfileStrategy::Fast => String::from_str("Fast"),
            RopProfileStrategy::Complete => String::from_str("Complete"),
        }
    }
}

/// How much of what happens during a run is reported.
#[derive(Debug, Copy, Clone, PartialEq, Eq, PartialOrd, Ord, Structural)]
pub enum Verbosity {
    Off,
    Error,
    Warn,
    Info,
    Debug,
    Trace,
}

impl Default for Verbosity {
    fn default() -> (v: Self)
        ensures
            v == Verbosity::Off,
    {
        Verbosity::Off
    }
}

impl Verbosity {
    /// The level that a number of requests for more reports stands for: errors without any,
    /// then warnings, information, details of the search, and at four requests everything.
    /// Any other number stands for errors only.
    pub open spec fn spec_from_count(count: u8) -> Verbosity {
        if count == 4 {
            Verbosity::Trace
        } else if count == 3 {
            Verbosity::Debug
        } else if count == 2 {
            Verbosity::Info
        } else if count == 1 {
            Verbosity::Warn
        } else {
            Verbosity::Error
        }
    }

    /// The level that a number of requests for more reports stands for.
    pub fn from_count(count: u8) -> (v: Self)
        ensures
            v == Self::spec_from_count(count),
    {
        match count {
            4 => Verbosity::Trace,
            3 => Verbosity::Debug,
            2 => Verbosity::Info,
            1 => Verbosity::Warn,
            _ => Verbosity::Error,
        }
    }
}

/// Where the gadgets go once they are found.
#[derive(Debug, Clone)]
pub enum RopGadgetOutput {
    /// No output, useful for testing and for measuring
    NoOutput,
    /// The standard output
    Console,
    /// The file at the path given
    File(String),
}

impl Default for RopGadgetOutput {
    fn default() -> (o: Self)
        ensures
            o is Console,
    {
        RopGadgetOutput::Console
    }
}

/// The binary of a session: where it came from and what was loaded of it.
#[derive(Debug)]
pub struct ExecutableDetails {
    pub filepath: String,
    pub format: FileFormat,
}

/// Whether pointers of the CPU are eight bytes wide.
pub open spec fn spec_is_64b(cpu: CpuType) -> bool {
    cpu == CpuType::X64 || cpu == CpuType::ARM64
}

impl ExecutableDetails {
    /// Loads the binary held in `buffer`, which was read from `filepath`.
    pub fn new(filepath: String, buffer: Vec<u8>) -> (r: GenericResult<Self>)
        ensures
            match spec_load(buffer@) {
                Ok(m) => r is Ok && r->Ok_0.format.model() == m && r->Ok_0.filepath == filepath,
                Err(e) => r is Err && r->Err_0 == e,
            },
    {
        match FileFormat::parse(buffer) {
            Ok(format) => Ok(ExecutableDetails { filepath, format }),
            Err(e) => Err(e),
        }
    }

    pub fn is_64b(&self) -> (b: bool)
        ensures
            b == spec_is_64b(self.format.model().cpu_type),
    {
        match self.format.cpu_type() {
            CpuType::X64 | CpuType::ARM64 => true,
            _ => false,
        }
    }

    /// The binary described in a few words: its CPU, its container and its entry point in
    /// hexadecimal digits.
    pub open spec fn description(&self) -> Seq<char> {
        "Info("@ + self.format.model().cpu_type.spec_name() + ", "@ + self.format.spec_format()
            + ", Entry=0x"@ + spec_hex(self.format.model().entry_point as nat, 1) + ")"@
    }

    /// The binary described in a few words.
    pub fn to_string(&self) -> (s: String)
        ensures
            s@ == self.description(),
    {
        let mut s = String::from_str("Info(");
        let cpu = self.format.cpu_type().to_string();
        s.append(cpu.as_str());
        s.append(", ");
        s.append(self.format.format());
        s.append(", Entry=0x");
        let entry = format_hex(self.format.entry_point(), 1);
        s.append(entry.as_str());
        s.append(")");
        s
    }
}

/// Number of workers of a session that asks for none in particular.
pub const DEFAULT_NB_THREAD: u8 = 4;

/// Largest number of instructions of a gadget, where a session asks for none in particular.
pub const DEFAULT_MAX_GADGET_LENGTH: usize = 6;

/// Largest number of bytes of a gadget, where a session asks for none in particular.
pub const DEFAULT_MAX_GADGET_SIZE: usize = 32;

/// One configured search: the binary, the tunables and the gadgets found so far.
#[derive(Debug)]
pub struct Session {
    pub info: ExecutableDetails,
    pub nb_thread: u8,
    pub output: RopGadgetOutput,
    pub engine_type: DisassemblyEngineType,
    /// Largest number of instructions of a gadget.
    pub max_gadget_length: usize,
    /// Largest number of bytes of a gadget.
    pub max_gadget_size: usize,
    pub gadgets: Vec<Gadget>,
    pub unique_only: bool,
    pub use_color: bool,
    pub gadget_type: InstructionGroup,
    pub profile_type: RopProfileStrategy,
    pub verbosity: Verbosity,
    /// The CPU that the binary is searched for, where it is not the one that the binary
    /// names.
    pub architecture: Option<CpuType>,
}

/// The CPU that the session searches the binary for: the one asked for, and the one that the
/// binary names where none is asked for.
pub open spec fn spec_session_cpu(session: Session) -> CpuType {
    match session.architecture {
        Some(cpu) => cpu,
        None => session.info.format.model().cpu_type,
    }
}

impl Session {
    /// A session on the binary held in `buffer`, which was read from `filepath`, with every
    /// tunable at its default and no gadget found yet.
    pub fn new(filepath: String, buffer: Vec<u8>) -> (r: GenericResult<Self>)
        ensures
            match spec_load(buffer@) {
                Ok(m) => {
                    &&& r is Ok
                    &&& r->Ok_0.info.format.model() == m
                    &&& r->Ok_0.info.filepath == filepath
                    &&& r->Ok_0.nb_thread == DEFAULT_NB_THREAD
                    &&& r->Ok_0.output is Console
                    &&& r->Ok_0.engine_type == DisassemblyEngineType::Capstone
                    &&& r->Ok_0.max_gadget_length == DEFAULT_MAX_GADGET_LENGTH
                    &&& r->Ok_0.max_gadget_size == DEFAULT_MAX_GADGET_SIZE
                    &&& r->Ok_0.gadgets@ == Seq::<Gadget>::empty()
                    &&& !r->Ok_0.unique_only
                    &&& !r->Ok_0.use_color
                    &&& r->Ok_0.gadget_type == InstructionGroup::Ret
                    &&& r->Ok_0.profile_type == RopProfileStrategy::Fast
                    &&& r->Ok_0.verbosity == Verbosity::Off
                    &&& r->Ok_0.architecture is None
                },
                Err(e) => r is Err && r->Err_0 == e,
            },
    {
        let info = match ExecutableDetails::new(filepath, buffer) {
            Ok(i) => i,
            Err(e) => {
                return Err(e);
            },
        };
        Ok(
            Session {
                info,
                nb_thread: DEFAULT_NB_THREAD,
                output: RopGadgetOutput::default(),
                engine_type: DisassemblyEngineType::Capstone,
                max_gadget_length: DEFAULT_MAX_GADGET_LENGTH,
                max_gadget_size: DEFAULT_MAX_GADGET_SIZE,
                gadgets: Vec::new(),
                unique_only: false,
                use_color: false,
                gadget_type: InstructionGroup::default(),
                profile_type: RopProfileStrategy::default(),
                verbosity: Verbosity::default(),
                architecture: None,
            },
        )
    }
}

impl Session {
    /// The same session with the number of workers given.
    pub fn nb_thread(self, nb_thread: u8) -> (s: Self)
        ensures
            s == (Session { nb_thread, ..self }),
    {
        Session { nb_thread, ..self }
    }

    /// The same session with the output given.
    pub fn output(self, new_output: RopGadgetOutput) -> (s: Self)
        ensures
            s == (Session { output: new_output, ..self }),
    {
        Session { output: new_output, ..self }
    }

    /// The same session, keeping one gadget of each text only or not.
    pub fn unique_only(self, unique_only: bool) -> (s: Self)
        ensures
            s == (Session { unique_only, ..self }),
    {
        Session { unique_only, ..self }
    }

    /// The same session, painting what goes to the console or not.
    pub fn use_color(self, use_color: bool) -> (s: Self)
        ensures
            s == (Session { use_color, ..self }),
    {
        Session { use_color, ..self }
    }

    /// The same session searching by the group given.
    pub fn gadget_type(self, gadget_type: InstructionGroup) -> (s: Self)
        ensures
            s == (Session { gadget_type, ..self }),
    {
        Session { gadget_type, ..self }
    }

    /// The same session under the strategy given.
    pub fn profile_type(self, profile_type: RopProfileStrategy) -> (s: Self)
        ensures
            s == (Session { profile_type, ..self }),
    {
        Session { profile_type, ..self }
    }

    /// The same session with the largest number of instructions of a gadget given.
    pub fn max_gadget_length(self, max_gadget_length: usize) -> (s: Self)
        ensures
            s == (Session { max_gadget_length, ..self }),
    {
        Session { max_gadget_length, ..self }
    }

    /// The same session with the largest number of bytes of a gadget given.
    pub fn max_gadget_size(self, max_gadget_size: usize) -> (s: Self)
        ensures
            s == (Session { max_gadget_size, ..self }),
    {
        Session { max_gadget_size, ..self }
    }

    /// The same session reporting at the level given.
    pub fn verbosity(self, verbosity: Verbosity) -> (s: Self)
        ensures
            s == (Session { verbosity, ..self }),
    {
        Session { verbosity, ..self }
    }

    /// The same session searching the binary for the CPU given, whatever CPU the binary
    /// names.
    pub fn architecture(self, cpu: CpuType) -> (s: Self)
        ensures
            s == (Session { architecture: Some(cpu), ..self }),
    {
        Session { architecture: Some(cpu), ..self }
    }

    /// The CPU that the session searches the binary for.
    pub fn cpu_type(&self) -> (cpu: CpuType)
        ensures
            cpu == spec_session_cpu(*self),
    {
        match self.architecture {
            Some(cpu) => cpu,
            None => self.info.format.cpu_type(),
        }
    }

    /// Whether pointers of the CPU that the session searches the binary for are eight bytes
    /// wide.
    pub fn is_64b(&self) -> (b: bool)
        ensures
            b == spec_is_64b(spec_session_cpu(*self)),
    {
        match self.cpu_type() {
            CpuType::X64 | CpuType::ARM64 => true,
            _ => false,
        }
    }

    /// The session described in one line: the path of its binary, the binary, the strategy
    /// and the group searched by.
    pub open spec fn description(&self) -> Seq<char> {
        "Session(File='"@ + self.info.filepath@ + "', "@ + self.info.description() + ", Profile="@
            + self.profile_type.spec_name() + ", GadgetTypes=["@ + self.gadget_type.spec_name()
            + "])"@
    }

    /// The session described in one line.
    pub fn to_string(&self) -> (s: String)
        ensures
            s@ == self.description(),
    {
        let mut s = String::from_str("Session(File='");
        s.append(self.info.filepath.as_str());
        s.append("', ");
        let info = self.info.to_string();
        s.append(info.as_str());
        s.append(", Profile=");
        let profile = self.profile_type.to_string();
        s.append(profile.as_str());
        s.append(", GadgetTypes=[");
        let group = self.gadget_type.to_string();
        s.append(group.as_str());
        s.append("])");
        s
    }

    /// Runs the session and hands back its gadgets, arranged for the output.
    pub fn run(self) -> (r: GenericResult<Vec<Gadget>>)
        ensures
            r is Ok,
            ascending_addresses(gadgets_view(r->Ok_0@)),
            exists|found: Seq<Gadget>| #[trigger]
                is_session_output(gadgets_view(r->Ok_0@), found, self),
    {
        collect_all_gadgets(self)
    }

    pub fn filepath(&self) -> (path: &String)
        ensures
            *path == self.info.filepath,
    {
        &self.info.filepath
    }
}

/// The profile of the CPU of the type given, if there is one.
pub open spec fn spec_profile_of(cpu_type: CpuType) -> Option<CpuProfile> {
    match spec_cpu_of(cpu_type) {
        Some(cpu) => Some(cpu.profile()),
        None => None,
    }
}

/// Whether `g` is a gadget of the session that ends with the terminator of `len` bytes at
/// offset `pos` of the section: the terminator lies inside the section, and the gadget lies
/// between the start of the rewind before the terminator and the end of the terminator, holds
/// the bytes of the section there, ends in an instruction of the group searched, holds no
/// other instruction that transfers control or changes mode, and has no more instructions
/// than a gadget may have.
pub open spec fn found_before(
    g: GadgetModel,
    session: Session,
    profile: CpuProfile,
    section: SectionModel,
    pos: int,
    len: int,
) -> bool {
    &&& terminator_in_section(section, pos, len)
    &&& is_gadget_between(
        g,
        session.gadget_type,
        section,
        section.start_address + window_start(pos, profile.max_rewind_size as int),
        section.start_address + pos + len,
        session.max_gadget_length as int,
        session.max_gadget_size as int,
    )
}

/// Whether `g` is a gadget that ends with one of the terminators of the chunk of the section
/// that starts at `cursor`.
pub open spec fn found_in_chunk(
    g: GadgetModel,
    session: Session,
    profile: CpuProfile,
    section: SectionModel,
    cursor: int,
) -> bool {
    exists|j: int|
        0 <= j < spec_positions(session, profile, section, cursor).len() && #[trigger] found_before(
            g,
            session,
            profile,
            section,
            spec_positions(session, profile, section, cursor)[j].0 as int,
            spec_positions(session, profile, section, cursor)[j].1 as int,
        )
}

/// The runs, one behind the other.
pub open spec fn spec_joined<T>(runs: Seq<Seq<T>>) -> Seq<T>
    decreases runs.len(),
{
    if runs.len() == 0 {
        Seq::empty()
    } else {
        spec_joined(runs.drop_last()) + runs.last()
    }
}

/// Everything in runs that are joined is in one of the runs.
pub proof fn lemma_joined<T>(runs: Seq<Seq<T>>, i: int)
    requires
        0 <= i < spec_joined(runs).len(),
    ensures
        exists|j: int, k: int|
            0 <= j < runs.len() && 0 <= k < runs[j].len() && spec_joined(runs)[i] == #[trigger] runs[j][k],
    decreases runs.len(),
{
    let head = spec_joined(runs.drop_last());
    if i < head.len() {
        lemma_joined(runs.drop_last(), i);
        let (j, k) = choose|j: int, k: int|
            0 <= j < runs.drop_last().len() && 0 <= k < runs.drop_last()[j].len() && head[i]
                == #[trigger] runs.drop_last()[j][k];
        assert(runs[j][k] == spec_joined(runs)[i]);
    } else {
        assert(runs[runs.len() - 1][i - head.len()] == spec_joined(runs)[i]);
    }
}

/// Whether `run` is what the walk before one terminator of a section may hand back: gadgets
/// of the session that end with the terminator, no two of them at one address, and none at
/// all for a terminator that does not lie in the section.
pub open spec fn is_run_before(
    run: Seq<Gadget>,
    session: Session,
    profile: CpuProfile,
    section: SectionModel,
    terminator: (usize, usize),
) -> bool {
    &&& run.len() > 0 ==> terminator_in_section(
        section,
        terminator.0 as int,
        terminator.1 as int,
    )
    &&& are_gadgets_before(
        run,
        session.gadget_type,
        section,
        section.start_address + window_start(terminator.0 as int, profile.max_rewind_size as int),
        section.start_address + terminator.0 + terminator.1,
        session.max_gadget_length as int,
        session.max_gadget_size as int,
    )
}

/// Whether `gadgets` is what the search of the chunk of a section that starts at `cursor`
/// may give, as the runs given: one run for each terminator of the chunk, in the order of
/// the terminators, each what the walk before its terminator may hand back.
pub open spec fn is_chunk_result(
    gadgets: Seq<Gadget>,
    runs: Seq<Seq<Gadget>>,
    session: Session,
    profile: CpuProfile,
    section: SectionModel,
    cursor: int,
) -> bool {
    let positions = spec_positions(session, profile, section, cursor);
    &&& session.gadget_type.spec_is_terminator()
    &&& runs.len() == positions.len()
    &&& gadgets == spec_joined(runs)
    &&& forall|j: int|
        0 <= j < runs.len() ==> is_run_before(
            #[trigger] runs[j],
            session,
            profile,
            section,
            positions[j],
        )
}

/// Every gadget of what the search of a chunk gives is a gadget that ends with one of the
/// terminators of the chunk.
pub proof fn lemma_chunk_result(
    gadgets: Seq<Gadget>,
    runs: Seq<Seq<Gadget>>,
    session: Session,
    profile: CpuProfile,
    section: SectionModel,
    cursor: int,
    i: int,
)
    requires
        is_chunk_result(gadgets, runs, session, profile, section, cursor),
        0 <= i < gadgets.len(),
    ensures
        found_in_chunk(gadgets[i]@, session, profile, section, cursor),
{
    let positions = spec_positions(session, profile, section, cursor);
    lemma_joined(runs, i);
    let (j, k) = choose|j: int, k: int|
        0 <= j < runs.len() && 0 <= k < runs[j].len() && spec_joined(runs)[i] == #[trigger] runs[j][k];
    assert(is_run_before(runs[j], session, profile, section, positions[j]));
    let g = runs[j][k]@;
    assert(found_before(
        g,
        session,
        profile,
        section,
        positions[j].0 as int,
        positions[j].1 as int,
    ));
}

/// The gadgets before each of the terminators given, one terminator after the other, as a
/// disassembler that answers as `answers` says gives them.
pub open spec fn spec_gadgets_before_each(
    answers: spec_fn(Seq<u8>, u64) -> Option<Seq<InstructionModel>>,
    session: Session,
    profile: CpuProfile,
    section: SectionModel,
    terminators: Seq<(usize, usize)>,
) -> Seq<GadgetModel>
    decreases terminators.len(),
{
    if terminators.len() == 0 {
        Seq::empty()
    } else {
        spec_gadgets_before_each(answers, session, profile, section, terminators.drop_last())
            + spec_gadgets_before(
            answers,
            session,
            profile,
            section,
            terminators.last().0 as int,
            terminators.last().1 as int,
        )
    }
}

/// What the search of the chunk of a section that starts at `cursor` gives with a
/// disassembler that answers as `answers` says: the gadgets before each terminator of the
/// chunk, in the order of the terminators, and nothing by a group that is no terminator.
pub open spec fn spec_chunk_gadgets(
    answers: spec_fn(Seq<u8>, u64) -> Option<Seq<InstructionModel>>,
    session: Session,
    profile: CpuProfile,
    section: SectionModel,
    cursor: int,
) -> Seq<GadgetModel> {
    if session.gadget_type.spec_is_terminator() {
        spec_gadgets_before_each(
            answers,
            session,
            profile,
            section,
            spec_positions(session, profile, section, cursor),
        )
    } else {
        Seq::empty()
    }
}

/// Searches one chunk of a section: finds the terminators that start in the chunk, then the
/// gadgets before each of them, in the order of the terminators. There is nothing to search
/// for by a group that is no terminator.
pub fn section_worker<D: Disassembler, C: Cpu>(
    session: &Session,
    engine: &D,
    cpu: &C,
    section: &Section,
    cursor: usize,
) -> (gadgets: Vec<Gadget>)
    ensures
        gadgets_view(gadgets@) == spec_chunk_gadgets(
            answers_of(*engine),
            *session,
            cpu.profile(),
            section@,
            cursor as int,
        ),
        !session.gadget_type.spec_is_terminator() ==> gadgets@.len() == 0,
        session.gadget_type.spec_is_terminator() ==> exists|runs: Seq<Seq<Gadget>>| #[trigger]
            is_chunk_result(gadgets@, runs, *session, cpu.profile(), section@, cursor as int),
{
    let mut gadgets: Vec<Gadget> = Vec::new();
    assert(gadgets_view(gadgets@) =~= Seq::<GadgetModel>::empty());
    let chunks = match get_all_valid_positions_and_length(session, cpu, section, cursor) {
        Ok(chunks) => chunks,
        Err(_) => {
            return gadgets;
        },
    };
    let ghost positions = spec_positions(*session, cpu.profile(), section@, cursor as int);
    let ghost answers = answers_of(*engine);
    let ghost mut runs: Seq<Seq<Gadget>> = Seq::empty();
    let mut c: usize = 0;
    assert(positions.take(0) =~= Seq::<(usize, usize)>::empty());
    while c < chunks.len()
        invariant
            c <= chunks@.len(),
            chunks@ == positions,
            positions == spec_positions(*session, cpu.profile(), section@, cursor as int),
            answers == answers_of(*engine),
            runs.len() == c,
            gadgets@ == spec_joined(runs),
            gadgets_view(gadgets@) == spec_gadgets_before_each(
                answers,
                *session,
                cpu.profile(),
                section@,
                positions.take(c as int),
            ),
            forall|j: int|
                0 <= j < runs.len() ==> is_run_before(
                    #[trigger] runs[j],
                    *session,
                    cpu.profile(),
                    section@,
                    positions[j],
                ),
        decreases chunks@.len() - c,
    {
        let pos: usize = chunks[c].0;
        let len: usize = chunks[c].1;
        let ghost held = gadgets@;
        match find_gadgets_from_position(session, engine, section, pos, len, cpu) {
            Ok(mut g) => {
                proof {
                    let before = runs;
                    runs = runs.push(g@);
                    assert(runs.drop_last() =~= before);
                    assert(positions.take(c + 1).drop_last() =~= positions.take(c as int));
                    assert(positions.take(c + 1).last() == (pos, len));
                    assert(gadgets_view(held + g@) =~= gadgets_view(held) + gadgets_view(g@));
                    assert forall|j: int| 0 <= j < runs.len() implies is_run_before(
                        #[trigger] runs[j],
                        *session,
                        cpu.profile(),
                        section@,
                        positions[j],
                    ) by {
                        if j < before.len() {
                            assert(runs[j] == before[j]);
                        }
                    }
                }
                gadgets.append(&mut g);
            },
            Err(_) => {},
        }
        c = c + 1;
    }
    assert(positions.take(c as int) =~= positions);
    assert(is_chunk_result(gadgets@, runs, *session, cpu.profile(), section@, cursor as int));
    gadgets
}

/// Whether `g` is a gadget that the worker of the session on the chunk at `cursor` of the
/// executable section `section_index` may hand back.
pub open spec fn found_by_worker(
    g: GadgetModel,
    session: Session,
    section_index: int,
    cursor: int,
) -> bool {
    let image = session.info.format.model();
    &&& spec_profile_of(spec_session_cpu(session)) is Some
    &&& 0 <= section_index < image.sections.len()
    &&& image.sections[section_index].executable()
    &&& found_in_chunk(
        g,
        session,
        spec_profile_of(spec_session_cpu(session))->0,
        image.sections[section_index],
        cursor,
    )
}

/// Whether the worker of the session on the chunk at `cursor` of the section `section_index`
/// has anything to search: the session asks for the Capstone engine and searches by a group
/// that is a terminator, there is a profile for its CPU, the section exists and may be
/// executed, and a terminator starts in the chunk.
pub open spec fn spec_worker_may_search(session: Session, section_index: int, cursor: int) -> bool {
    let image = session.info.format.model();
    &&& session.engine_type == DisassemblyEngineType::Capstone
    &&& session.gadget_type.spec_is_terminator()
    &&& spec_profile_of(spec_session_cpu(session)) is Some
    &&& 0 <= section_index < image.sections.len()
    &&& image.sections[section_index].executable()
    &&& spec_positions(
        session,
        spec_profile_of(spec_session_cpu(session))->0,
        image.sections[section_index],
        cursor,
    ).len() > 0
}

/// What the disassembler that works through Capstone answers when it is set up for the
/// CPU of the type given, as a function of the code and the address.
pub open spec fn spec_capstone_answers(cpu: CpuType) -> spec_fn(Seq<u8>, u64) -> Option<
    Seq<InstructionModel>,
> {
    |code: Seq<u8>, address: u64| spec_capstone_answer(cpu, code, address)
}

/// What the worker of the session on the chunk at `cursor` of the section `section_index`
/// finds when it gets its disassembler: where it has anything to search, what the search of
/// that chunk gives with the profile of the CPU of the session and the answers of Capstone
/// for that CPU, and else nothing.
pub open spec fn spec_worker_gadgets(session: Session, section_index: int, cursor: int) -> Seq<
    GadgetModel,
> {
    if spec_worker_may_search(session, section_index, cursor) {
        spec_chunk_gadgets(
            spec_capstone_answers(spec_session_cpu(session)),
            session,
            spec_profile_of(spec_session_cpu(session))->0,
            session.info.format.model().sections[section_index],
            cursor,
        )
    } else {
        Seq::empty()
    }
}

/// Whether `gadgets` is what the worker of the session on the chunk at `cursor` of the
/// section `section_index` may hand back: nothing, or what the worker finds when it gets
/// its disassembler, which is what the search of that chunk with the profile of the CPU of
/// the session may give.
pub open spec fn is_worker_result(
    gadgets: Seq<Gadget>,
    session: Session,
    section_index: int,
    cursor: int,
) -> bool {
    let image = session.info.format.model();
    gadgets.len() == 0 || {
        &&& spec_worker_may_search(session, section_index, cursor)
        &&& gadgets_view(gadgets) == spec_worker_gadgets(session, section_index, cursor)
        &&& exists|runs: Seq<Seq<Gadget>>| #[trigger]
            is_chunk_result(
                gadgets,
                runs,
                session,
                spec_profile_of(spec_session_cpu(session))->0,
                image.sections[section_index],
                cursor,
            )
    }
}

/// Every gadget that a worker hands back is a gadget of its chunk.
pub proof fn lemma_worker_result(
    gadgets: Seq<Gadget>,
    session: Session,
    section_index: int,
    cursor: int,
    i: int,
)
    requires
        is_worker_result(gadgets, session, section_index, cursor),
        0 <= i < gadgets.len(),
    ensures
        found_by_worker(gadgets[i]@, session, section_index, cursor),
{
    let image = session.info.format.model();
    let profile = spec_profile_of(spec_session_cpu(session))->0;
    let runs = choose|runs: Seq<Seq<Gadget>>| #[trigger]
        is_chunk_result(gadgets, runs, session, profile, image.sections[section_index], cursor);
    lemma_chunk_result(gadgets, runs, session, profile, image.sections[section_index], cursor, i);
}

fn worker_for<C: Cpu>(session: &Session, cpu: &C, section_index: usize, cursor: usize) -> (gadgets:
    Vec<Gadget>)
    requires
        spec_profile_of(spec_session_cpu(*session)) == Some(cpu.profile()),
    ensures
        gadgets@.len() == 0 || gadgets_view(gadgets@) == spec_worker_gadgets(
            *session,
            section_index as int,
            cursor as int,
        ),
        is_worker_result(gadgets@, *session, section_index as int, cursor as int),
        !spec_worker_may_search(*session, section_index as int, cursor as int)
            ==> gadgets@.len() == 0,
{
    let engine = match DisassemblyEngine::new(&session.engine_type, cpu) {
        Ok(e) => e,
        Err(_) => {
            return Vec::new();
        },
    };
    let sections = session.info.format.executable_sections();
    if section_index >= sections.len() {
        return Vec::new();
    }
    let section = &sections[section_index];
    assert(section@ == sections_view(sections@)[section_index as int]);
    // only executable sections are searched
    if !section.is_executable() {
        return Vec::new();
    }
    let gadgets = section_worker(session, &engine.disassembler, cpu, section, cursor);
    proof {
        assert(answers_of(engine.disassembler) =~= spec_capstone_answers(
            spec_session_cpu(*session),
        ));
        if gadgets@.len() > 0 {
            let runs = choose|runs: Seq<Seq<Gadget>>| #[trigger]
                is_chunk_result(gadgets@, runs, *session, cpu.profile(), section@, cursor as int);
            assert(is_chunk_result(
                gadgets@,
                runs,
                *session,
                spec_profile_of(spec_session_cpu(*session))->0,
                session.info.format.model().sections[section_index as int],
                cursor as int,
            ));
            // the gadgets come from the runs, one for each terminator of the chunk
            if runs.len() == 0 {
                assert(spec_joined(runs) =~= Seq::<Gadget>::empty());
            }
        }
    }
    gadgets
}

/// The work of one worker: the gadgets of the chunk at `cursor` of the executable section
/// `section_index`, found with a disassembler of its own. A worker that gets its
/// disassembler hands back what the binary and the session determine; one that does not
/// hands back nothing, and so does a worker that has nothing to search.
pub fn thread_worker(session: &Session, section_index: usize, cursor: usize) -> (gadgets: Vec<
    Gadget,
>)
    ensures
        gadgets@.len() == 0 || gadgets_view(gadgets@) == spec_worker_gadgets(
            *session,
            section_index as int,
            cursor as int,
        ),
        is_worker_result(gadgets@, *session, section_index as int, cursor as int),
        !spec_worker_may_search(*session, section_index as int, cursor as int)
            ==> gadgets@.len() == 0,
{
    match cpu_of(session.cpu_type()) {
        Some(cpu) => worker_for(session, &cpu, section_index, cursor),
        None => Vec::new(),
    }
}

/// The cursors of the chunks of `len` bytes, from `pos` on, where a chunk has `chunk` bytes.
pub open spec fn spec_cursors_from(pos: int, len: int, chunk: int) -> Seq<usize>
    decreases
            (if pos < len {
                len - pos
            } else {
                0
            }),
{
    if pos < len && chunk >= 1 {
        seq![pos as usize] + spec_cursors_from(pos + chunk, len, chunk)
    } else {
        Seq::empty()
    }
}

/// The cursors at which the workers of a section of `len` bytes start, where `nb_thread`
/// workers share the section: the start of the section, then one chunk further each time.
pub open spec fn spec_cursors(len: int, nb_thread: int) -> Seq<usize> {
    spec_cursors_from(0, len, spec_chunk_size(len, nb_thread))
}

/// Every offset of the section lies in the chunk of one of the cursors.
pub proof fn lemma_cursors_cover(pos: int, len: int, chunk: int, offset: int)
    requires
        0 <= pos <= offset < len <= usize::MAX,
        chunk >= 1,
    ensures
        exists|i: int|
            0 <= i < spec_cursors_from(pos, len, chunk).len() && (#[trigger] spec_cursors_from(
                pos,
                len,
                chunk,
            )[i]) <= offset < spec_cursors_from(pos, len, chunk)[i] + chunk,
    decreases len - pos,
{
    let all = spec_cursors_from(pos, len, chunk);
    if offset < pos + chunk {
        assert(all[0] == pos as usize);
    } else {
        lemma_cursors_cover(pos + chunk, len, chunk, offset);
        let rest = spec_cursors_from(pos + chunk, len, chunk);
        let i = choose|i: int| 0 <= i < rest.len() && (#[trigger] rest[i]) <= offset < rest[i] + chunk;
        assert(all[i + 1] == rest[i]);
    }
}

/// The cursors at which the workers of a section of `len` bytes start.
pub fn worker_cursors(len: usize, nb_thread: u8) -> (cursors: Vec<usize>)
    ensures
        cursors@ == spec_cursors(len as int, nb_thread as int),
{
    let chunk: usize = chunk_size(len, nb_thread);
    let mut cursors: Vec<usize> = Vec::new();
    let mut pos: usize = 0;
    loop
        invariant_except_break
            chunk >= 1,
            spec_cursors_from(0, len as int, chunk as int) == cursors@ + spec_cursors_from(
                pos as int,
                len as int,
                chunk as int,
            ),
        ensures
            cursors@ == spec_cursors_from(0, len as int, chunk as int),
        decreases
                (if pos < len {
                    len - pos
                } else {
                    0
                }),
    {
        // Is there still some data to parse?
        if pos >= len {
            assert(cursors@ + Seq::<usize>::empty() =~= cursors@);
            break ;
        }
        let ghost before = cursors@;
        cursors.push(pos);
        proof {
            let rest = spec_cursors_from(pos + chunk, len as int, chunk as int);
            assert(before + (seq![pos] + rest) =~= before.push(pos) + rest);
        }
        pos = match pos.checked_add(chunk) {
            Some(next) => next,
            None => {
                assert(spec_cursors_from(pos + chunk, len as int, chunk as int) =~= Seq::<
                    usize,
                >::empty());
                assert(cursors@ + Seq::<usize>::empty() =~= cursors@);
                break ;
            },
        };
    }
    cursors
}

/// The number of workers that run at a time: as many as asked for, and one where none is
/// asked for.
pub open spec fn spec_workers(nb_thread: int) -> int {
    if nb_thread <= 0 {
        1
    } else {
        nb_thread
    }
}

/// The batches as mathematical values.
pub open spec fn batches_view(batches: Seq<Vec<usize>>) -> Seq<Seq<usize>> {
    batches.map_values(|b: Vec<usize>| b@)
}

/// The cursors at which the workers of a section of `len` bytes start, in the batches in
/// which the workers run: as many workers at a time as asked for, the batches one after the
/// other, and the rest of the workers in the last batch.
pub fn worker_batches(len: usize, nb_thread: u8) -> (batches: Vec<Vec<usize>>)
    ensures
        spec_joined(batches_view(batches@)) == spec_cursors(len as int, nb_thread as int),
        forall|i: int|
            0 <= i < batches@.len() ==> 1 <= (#[trigger] batches@[i])@.len() <= spec_workers(
                nb_thread as int,
            ),
        forall|i: int|
            0 <= i < batches@.len() - 1 ==> (#[trigger] batches@[i])@.len() == spec_workers(
                nb_thread as int,
            ),
{
    let workers: usize = if nb_thread == 0 {
        1
    } else {
        nb_thread as usize
    };
    let cursors = worker_cursors(len, nb_thread);
    let mut batches: Vec<Vec<usize>> = Vec::new();
    let mut batch: Vec<usize> = Vec::new();
    let mut i: usize = 0;
    assert(cursors@.take(0) =~= Seq::<usize>::empty());
    assert(spec_joined(batches_view(batches@)) + batch@ =~= cursors@.take(0));
    while i < cursors.len()
        invariant
            i <= cursors@.len(),
            workers == spec_workers(nb_thread as int),
            spec_joined(batches_view(batches@)) + batch@ == cursors@.take(i as int),
            batch@.len() < workers,
            forall|k: int| 0 <= k < batches@.len() ==> (#[trigger] batches@[k])@.len() == workers,
        decreases cursors@.len() - i,
    {
        let ghost joined = spec_joined(batches_view(batches@));
        let ghost before = batch@;
        batch.push(cursors[i]);
        assert(joined + before == cursors@.take(i as int));
        assert(cursors@.take(i + 1) =~= cursors@.take(i as int).push(cursors@[i as int]));
        assert(joined + before.push(cursors@[i as int]) =~= (joined + before).push(
            cursors@[i as int],
        ));
        if batch.len() == workers {
            let ghost full = batch@;
            let ghost views = batches_view(batches@);
            batches.push(batch);
            batch = Vec::new();
            proof {
                assert(batches_view(batches@) =~= views.push(full));
                assert(batches_view(batches@).drop_last() =~= views);
                assert(spec_joined(batches_view(batches@)) + batch@ =~= joined + full);
            }
        }
        i = i + 1;
    }
    assert(cursors@.take(i as int) =~= cursors@);
    if batch.len() > 0 {
        let ghost joined = spec_joined(batches_view(batches@));
        let ghost rest = batch@;
        let ghost views = batches_view(batches@);
        batches.push(batch);
        proof {
            assert(batches_view(batches@) =~= views.push(rest));
            assert(batches_view(batches@).drop_last() =~= views);
        }
    } else {
        assert(spec_joined(batches_view(batches@)) + Seq::<usize>::empty() =~= spec_joined(
            batches_view(batches@),
        ));
    }
    batches
}

/// The workers of the first `count` sections, in the order in which they run: each as the
/// index of its section and its cursor, section by section and by ascending cursor.
pub open spec fn spec_schedule(sections: Seq<SectionModel>, nb_thread: int, count: int) -> Seq<
    (int, usize),
>
    decreases count,
{
    if count <= 0 {
        Seq::empty()
    } else {
        spec_schedule(sections, nb_thread, count - 1) + spec_cursors(
            sections[count - 1].data.len() as int,
            nb_thread,
        ).map_values(|cursor: usize| (count - 1, cursor))
    }
}

/// Whether `found` is what a run of the workers of the session may find, as the results of
/// the workers given: one for each worker, in the order in which the workers run.
pub open spec fn is_search_result(
    found: Seq<Gadget>,
    results: Seq<Seq<Gadget>>,
    session: Session,
) -> bool {
    let sections = session.info.format.model().sections;
    let schedule = spec_schedule(sections, session.nb_thread as int, sections.len() as int);
    &&& results.len() == schedule.len()
    &&& found == spec_joined(results)
    &&& forall|w: int|
        0 <= w < results.len() ==> is_worker_result(
            #[trigger] results[w],
            session,
            schedule[w].0,
            schedule[w].1 as int,
        )
}

/// Whether `g` is a gadget that a run of the workers of the session may find.
pub open spec fn found_in_session(g: GadgetModel, session: Session) -> bool {
    exists|k: int, c: int| #[trigger] found_by_worker(g, session, k, c)
}

/// Every gadget that a run of the workers finds is a gadget that one of the workers may
/// hand back.
pub proof fn lemma_search_result(
    found: Seq<Gadget>,
    results: Seq<Seq<Gadget>>,
    session: Session,
    i: int,
)
    requires
        is_search_result(found, results, session),
        0 <= i < found.len(),
    ensures
        found_in_session(found[i]@, session),
{
    let sections = session.info.format.model().sections;
    let schedule = spec_schedule(sections, session.nb_thread as int, sections.len() as int);
    lemma_joined(results, i);
    let (w, k) = choose|w: int, k: int|
        0 <= w < results.len() && 0 <= k < results[w].len() && spec_joined(results)[i]
            == #[trigger] results[w][k];
    lemma_worker_result(results[w], session, schedule[w].0, schedule[w].1 as int, k);
}

/// Runs the search of the session: for each executable section in turn, the worker of each of
/// its chunks, chunk by chunk. What the workers find is added behind the gadgets that the
/// session holds already, in the order of the workers; nothing else of the session changes.
pub fn find_gadgets(session: &mut Session) -> (r: GenericResult<()>)
    ensures
        r is Ok,
        final(session).gadgets@.len() >= old(session).gadgets@.len(),
        final(session).gadgets@.subrange(0, old(session).gadgets@.len() as int) == old(
            session,
        ).gadgets@,
        exists|results: Seq<Seq<Gadget>>| #[trigger]
            is_search_result(
                final(session).gadgets@.skip(old(session).gadgets@.len() as int),
                results,
                *old(session),
            ),
        final(session).info == old(session).info,
        final(session).nb_thread == old(session).nb_thread,
        final(session).output == old(session).output,
        final(session).engine_type == old(session).engine_type,
        final(session).max_gadget_length == old(session).max_gadget_length,
        final(session).max_gadget_size == old(session).max_gadget_size,
        final(session).unique_only == old(session).unique_only,
        final(session).use_color == old(session).use_color,
        final(session).gadget_type == old(session).gadget_type,
        final(session).profile_type == old(session).profile_type,
        final(session).verbosity == old(session).verbosity,
        final(session).architecture == old(session).architecture,
{
    let mut found: Vec<Gadget> = Vec::new();
    let ghost mut results: Seq<Seq<Gadget>> = Seq::empty();
    let ghost models = session.info.format.model().sections;
    let ghost workers = session.nb_thread as int;
    let number_of_sections: usize = session.info.format.executable_sections().len();
    let mut section_idx: usize = 0;
    while section_idx < number_of_sections
        invariant
            *session == *old(session),
            models == session.info.format.model().sections,
            workers == session.nb_thread as int,
            number_of_sections == models.len(),
            section_idx <= number_of_sections,
            found@ == spec_joined(results),
            results.len() == spec_schedule(models, workers, section_idx as int).len(),
            forall|w: int|
                0 <= w < results.len() ==> is_worker_result(
                    #[trigger] results[w],
                    *session,
                    spec_schedule(models, workers, section_idx as int)[w].0,
                    spec_schedule(models, workers, section_idx as int)[w].1 as int,
                ),
        decreases number_of_sections - section_idx,
    {
        let sections = session.info.format.executable_sections();
        let ghost done = spec_schedule(models, workers, section_idx as int);
        let cursors = worker_cursors(sections[section_idx].data.len(), session.nb_thread);
        assert(sections[section_idx as int]@ == sections_view(sections@)[section_idx as int]);
        let ghost pairs = cursors@.map_values(|cursor: usize| (section_idx as int, cursor));
        assert(spec_schedule(models, workers, section_idx + 1) == done + pairs);
        let mut w: usize = 0;
        while w < cursors.len()
            invariant
                *session == *old(session),
                w <= cursors@.len(),
                pairs == cursors@.map_values(|cursor: usize| (section_idx as int, cursor)),
                found@ == spec_joined(results),
                results.len() == done.len() + w,
                forall|i: int|
                    0 <= i < results.len() ==> is_worker_result(
                        #[trigger] results[i],
                        *session,
                        (done + pairs)[i].0,
                        (done + pairs)[i].1 as int,
                    ),
            decreases cursors@.len() - w,
        {
            let mut result = thread_worker(session, section_idx, cursors[w]);
            proof {
                let before = results;
                results = results.push(result@);
                assert(results.drop_last() =~= before);
                assert((done + pairs)[done.len() + w] == pairs[w as int]);
                assert forall|i: int| 0 <= i < results.len() implies is_worker_result(
                    #[trigger] results[i],
                    *session,
                    (done + pairs)[i].0,
                    (done + pairs)[i].1 as int,
                ) by {
                    if i < before.len() {
                        assert(results[i] == before[i]);
                    }
                }
            }
            found.append(&mut result);
            w = w + 1;
        }
        section_idx = section_idx + 1;
    }
    let ghost before = session.gadgets@;
    let ghost fresh = found@;
    session.gadgets.append(&mut found);
    assert(session.gadgets@.subrange(0, before.len() as int) =~= before);
    assert(session.gadgets@.skip(before.len() as int) =~= fresh);
    assert(is_search_result(fresh, results, *old(session)));
    Ok(())
}

} // verus!
