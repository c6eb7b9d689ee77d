//! A program as the instrument stores it: the protocol version and the bytes
//! of the unpacked dump, with what the protocol crate reads from them.
//!
//! The `deepmind-midi` crate owns the protocol: the frame format of a `.syx`,
//! where each parameter sits, what its values are called. This module carries
//! its program alongside the plain bytes and asks it those questions; the
//! library's own rules are written against the answers.

use vstd::prelude::*;

use crate::text::{decimal, push_char, push_decimal, char_of_ascii};

verus! {

#[verifier::external_type_specification]
#[verifier::external_body]
pub struct ExMidiProgram(deepmind_midi::program::Program);

#[verifier::external_type_specification]
#[verifier::external_body]
pub struct ExParamId(deepmind_midi::ParamId);

/// The parameters the library reads by name.
#[derive(Debug, Clone, Copy, PartialEq, Eq, Structural)]
pub enum Param {
    /// The first of the seventeen name characters.
    ProgramNameChar1,
    /// The stored category.
    ProgramCategory,
    /// The stored transposition.
    ProgramTranspose,
    /// Effect routing mode: insert, send or bypass.
    FxMode,
    /// Arpeggiator on or off.
    ArpOnOff,
    /// Arpeggiator mode.
    ArpMode,
    /// Polyphony mode.
    PolyphonyMode,
    /// Source of modulation routing 1.
    Mod1Source,
    /// Source of modulation routing 2.
    Mod2Source,
    /// Source of modulation routing 3.
    Mod3Source,
    /// Source of modulation routing 4.
    Mod4Source,
    /// Source of modulation routing 5.
    Mod5Source,
    /// Source of modulation routing 6.
    Mod6Source,
    /// Source of modulation routing 7.
    Mod7Source,
    /// Source of modulation routing 8.
    Mod8Source,
    /// Control sequencer on or off.
    CtrlSequencerEnable,
}

/// Number of program parameters; their offsets run from 0 up to this.
pub const PARAMETER_COUNT: usize = 242;

/// One program: its protocol version and the unpacked dump.
pub struct StoredProgram {
    version: u8,
    data: Vec<u8>,
    midi: deepmind_midi::program::Program,
}

/// Whether a protocol version and dump length go together: 242 bytes under
/// version 6, 245 under version 7.
pub open spec fn dump_fits(version: u8, len: nat) -> bool {
    (version == 6 && len == 242) || (version == 7 && len == 245)
}

impl View for StoredProgram {
    type V = (u8, Seq<u8>);

    closed spec fn view(&self) -> (u8, Seq<u8>) {
        (self.version, self.data@)
    }
}

/// Where a parameter sits in a dump: its offset in the protocol crate's
/// parameter table.
pub open spec fn offset_of(param: Param) -> nat {
    match param {
        Param::ProgramNameChar1 => 223,
        Param::ProgramCategory => 240,
        Param::ProgramTranspose => 241,
        Param::FxMode => 222,
        Param::ArpOnOff => 155,
        Param::ArpMode => 156,
        Param::PolyphonyMode => 85,
        Param::Mod1Source => 93,
        Param::Mod2Source => 96,
        Param::Mod3Source => 99,
        Param::Mod4Source => 102,
        Param::Mod5Source => 105,
        Param::Mod6Source => 108,
        Param::Mod7Source => 111,
        Param::Mod8Source => 114,
        Param::CtrlSequencerEnable => 117,
    }
}

/// What the instrument calls a value of a parameter, if it names it.
pub uninterp spec fn label_of(param: Param, value: u16) -> Option<Seq<char>>;

/// The name of the effect algorithm an engine (0 to 3) of a program runs, if
/// its byte names one.
pub uninterp spec fn algorithm_of(program: (u8, Seq<u8>), engine: u8) -> Option<Seq<char>>;

/// A program's transposition in semitones: the byte at offset 241 (0 where
/// the dump is shorter) less 128, the middle of the 80 to 176 it accepts,
/// clamped to -48 to 48.
pub open spec fn transpose_of(program: (u8, Seq<u8>)) -> i8 {
    let raw: int = if program.1.len() > 241 { program.1[241] as int } else { 0 };
    let t = raw - 128;
    (if t < -48 { -48 } else if t > 48 { 48 } else { t }) as i8
}

/// How a stored name byte shows: itself where it is printable ASCII, else
/// `?`.
pub open spec fn name_glyph(b: u8) -> char {
    if 32 <= b && b < 127 {
        (b as u32) as char
    } else {
        '?'
    }
}

/// The name a name field holds: its bytes up to the first zero, each as it
/// shows.
pub open spec fn name_in_field(field: Seq<u8>) -> Seq<char>
    decreases field.len(),
{
    if field.len() == 0 || field[0] == 0 {
        seq![]
    } else {
        seq![name_glyph(field[0])] + name_in_field(field.drop_first())
    }
}

/// The name a program stores: what the first sixteen bytes of its name field
/// (from offset 223) hold; empty where the dump cannot hold the field's
/// seventeen bytes.
pub open spec fn stored_name_of(program: (u8, Seq<u8>)) -> Seq<char> {
    if program.1.len() >= 240 {
        name_in_field(program.1.subrange(223, 239))
    } else {
        seq![]
    }
}

/// The parameters of a program holding a value they do not accept, in offset
/// order: each parameter's display name and the value.
pub uninterp spec fn invalid_of(program: (u8, Seq<u8>)) -> Seq<(Seq<char>, u8)>;

/// What reading a `.syx` file's bytes gives: per program frame, the slot it
/// names (bank index, program index) or none for an edit buffer dump, and the
/// program; or the message a frame that did not parse gave.
pub uninterp spec fn syx_entries(bytes: Seq<u8>) -> Seq<Result<(Option<(u8, u8)>, (u8, Seq<u8>)), Seq<char>>>;

/// Whether text can be stored as a program name: sixteen characters at
/// most, each printable ASCII.
pub open spec fn is_program_name(text: Seq<char>) -> bool {
    text.len() <= 16 && forall|i: int| 0 <= i < text.len() ==> (' ' <= #[trigger] text[i] <= '~')
}

/// Why text cannot be a program name, as the protocol crate says it.
pub uninterp spec fn program_name_refusal(text: Seq<char>) -> Seq<char>;

/// One program a `.syx` file carries, and the slot it names.
pub struct SyxEntry {
    /// Bank index (0 is A) and program index (0 is 1), absent for an edit
    /// buffer dump.
    pub slot: Option<(u8, u8)>,
    /// The program.
    pub program: StoredProgram,
}

/// What the protocol crate's `ParamId` is for one of ours.
#[verifier::external_body]
fn param_id(param: Param) -> deepmind_midi::ParamId {
    match param {
        Param::ProgramNameChar1 => deepmind_midi::ParamId::ProgramNameChar1,
        Param::ProgramCategory => deepmind_midi::ParamId::ProgramCategory,
        Param::ProgramTranspose => deepmind_midi::ParamId::ProgramTranspose,
        Param::FxMode => deepmind_midi::ParamId::FxMode,
        Param::ArpOnOff => deepmind_midi::ParamId::ArpOnOff,
        Param::ArpMode => deepmind_midi::ParamId::ArpMode,
        Param::PolyphonyMode => deepmind_midi::ParamId::PolyphonyMode,
        Param::CtrlSequencerEnable => deepmind_midi::ParamId::CtrlSequencerEnable,
        routing => mod_source_id(routing),
    }
}

/// What the protocol crate's `ParamId` is for one of the eight modulation
/// sources, the last arm taking the eighth.
#[verifier::external_body]
fn mod_source_id(param: Param) -> deepmind_midi::ParamId {
    match param {
        Param::Mod1Source => deepmind_midi::ParamId::Mod1Source,
        Param::Mod2Source => deepmind_midi::ParamId::Mod2Source,
        Param::Mod3Source => deepmind_midi::ParamId::Mod3Source,
        Param::Mod4Source => deepmind_midi::ParamId::Mod4Source,
        Param::Mod5Source => deepmind_midi::ParamId::Mod5Source,
        Param::Mod6Source => deepmind_midi::ParamId::Mod6Source,
        Param::Mod7Source => deepmind_midi::ParamId::Mod7Source,
        _ => deepmind_midi::ParamId::Mod8Source,
    }
}

/// Where a parameter sits in a dump (`ParamId::offset`).
///
/// Trusted: the crate's parameter table gives each parameter the offset
/// [`offset_of`] lists (`offset` is the enum's discriminant).
#[verifier::external_body]
pub(crate) fn param_offset(param: Param) -> (r: u8)
    ensures
        r as nat == offset_of(param),
{
    param_id(param).offset()
}

/// What the instrument calls a value of a parameter (`ParamId::label`).
///
/// Trusted: named by [`label_of`], a function of the parameter and value.
#[verifier::external_body]
pub(crate) fn param_label(param: Param, value: u16) -> (r: Option<String>)
    ensures
        match r {
            Some(s) => label_of(param, value) == Some(s@),
            None => label_of(param, value) is None,
        },
{
    param_id(param).label(value).map(str::to_owned)
}

/// The names of the instrument models, as Behringer writes them
/// (`Model::ALL` and `Model::name`).
///
/// Trusted: the list is the crate's six models in its order.
#[verifier::external_body]
pub(crate) fn model_names() -> (r: Vec<String>)
    ensures
        r@.len() == 6,
        r@[0]@ == "DeepMind 6"@,
        r@[1]@ == "DeepMind 6X"@,
        r@[2]@ == "DeepMind 12"@,
        r@[3]@ == "DeepMind 12X"@,
        r@[4]@ == "DeepMind 12D"@,
        r@[5]@ == "DeepMind 12XD"@,
{
    deepmind_midi::ids::Model::ALL.iter().map(|model| model.name().to_owned()).collect()
}

/// Why text cannot be a program name, or nothing when it can be one
/// (`ProgramName::new`).
///
/// Trusted: the source refuses more than sixteen characters and any character
/// that is not printable ASCII, and nothing else; the message is named by
/// [`program_name_refusal`].
#[verifier::external_body]
pub(crate) fn program_name_problem(text: &str) -> (r: Option<String>)
    ensures
        r is None <==> is_program_name(text@),
        r matches Some(m) ==> m@ == program_name_refusal(text@),
{
    deepmind_midi::program::ProgramName::new(text).err().map(|error| error.to_string())
}

/// Reads every program frame of a `.syx` file (`syx::File::programs`).
///
/// Trusted: named by [`syx_entries`], a function of the bytes; each program
/// read is stored under protocol version 6 or 7 with the dump length that
/// version carries, and a slot names one of the eight banks and one of the
/// 128 programs in it.
#[verifier::external_body]
pub(crate) fn read_syx(bytes: &[u8]) -> (r: Vec<Result<SyxEntry, String>>)
    ensures
        r@.len() == syx_entries(bytes@).len(),
        forall|i: int|
            0 <= i < r@.len() ==> match (#[trigger] r@[i], syx_entries(bytes@)[i]) {
                (Ok(e), Ok((slot, program))) => e.slot == slot && e.program@ == program
                    && dump_fits(program.0, program.1.len()) && (slot matches Some(s) ==> s.0 < 8
                    && s.1 < 128),
                (Err(m), Err(n)) => m@ == n,
                _ => false,
            },
{
    deepmind_midi::syx::File::new(bytes)
        .programs()
        .map(|entry| {
            entry
                .map(|e| SyxEntry {
                    slot: e.slot.map(|slot| (slot.bank.index(), slot.number.get())),
                    program: StoredProgram::carrying(e.program),
                })
                .map_err(|error| error.to_string())
        })
        .collect()
}

impl StoredProgram {
    /// A protocol crate program with its version and bytes alongside.
    #[verifier::external_body]
    fn carrying(midi: deepmind_midi::program::Program) -> StoredProgram {
        StoredProgram { version: midi.version().get(), data: midi.as_bytes().to_vec(), midi }
    }

    /// Whether the version and the dump length go together.
    pub open spec fn wf(&self) -> bool {
        dump_fits(self@.0, self@.1.len())
    }

    /// Reads a program from the bytes of an unpacked dump
    /// (`Program::from_bytes`).
    ///
    /// Trusted: the source accepts version 6 with 242 bytes and version 7
    /// with 245, refuses anything else, and keeps the bytes as they are.
    #[verifier::external_body]
    pub fn from_bytes(version: u8, bytes: &[u8]) -> (r: Option<StoredProgram>)
        ensures
            r is Some <==> dump_fits(version, bytes@.len()),
            r matches Some(p) ==> p@ == (version, bytes@),
    {
        let v = deepmind_midi::ids::ProtocolVersion::new(version).ok()?;
        deepmind_midi::program::Program::from_bytes(v, bytes).ok().map(StoredProgram::carrying)
    }

    /// The comms protocol version the program is stored in.
    pub fn version(&self) -> (r: u8)
        ensures
            r == self@.0,
    {
        self.version
    }

    /// The unpacked dump.
    pub fn as_bytes(&self) -> (r: &[u8])
        ensures
            r@ == self@.1,
    {
        self.data.as_slice()
    }

    /// The raw value of one parameter: the dump's byte at its offset.
    pub fn get(&self, param: Param) -> (r: u8)
        requires
            self.wf(),
        ensures
            r == self@.1[offset_of(param) as int],
    {
        let offset = param_offset(param) as usize;
        self.data[offset]
    }

    /// The name of the algorithm an effect engine (0 to 3) runs
    /// (`Program::algorithm`).
    ///
    /// Trusted: named by [`algorithm_of`], a function of the program and the
    /// engine.
    #[verifier::external_body]
    pub fn algorithm(&self, engine: u8) -> (r: Option<String>)
        requires
            engine < 4,
        ensures
            match r {
                Some(s) => algorithm_of(self@, engine) == Some(s@),
                None => algorithm_of(self@, engine) is None,
            },
    {
        let engine = match engine {
            0 => deepmind_midi::effect::Engine::One,
            1 => deepmind_midi::effect::Engine::Two,
            2 => deepmind_midi::effect::Engine::Three,
            _ => deepmind_midi::effect::Engine::Four,
        };
        self.midi.algorithm(engine).map(|algorithm| algorithm.full_name.to_owned())
    }

    /// The transposition in semitones (`Program::transpose`).
    ///
    /// Trusted: the source reads the byte at the parameter's offset (0 past
    /// the end), subtracts the midpoint of its range 80 to 176 and clamps to
    /// -48 to 48, as [`transpose_of`] states.
    #[verifier::external_body]
    pub fn transpose(&self) -> (r: i8)
        ensures
            r == transpose_of(self@),
            -48 <= r <= 48,
    {
        self.midi.transpose()
    }

    /// The stored name (`Program::name`).
    ///
    /// Trusted: the source takes the seventeen bytes from offset 223 (none
    /// where the dump is shorter), reads at most sixteen of them up to a zero,
    /// and shows any byte that is not printable ASCII as `?`, as
    /// [`stored_name_of`] states.
    #[verifier::external_body]
    pub fn name(&self) -> (r: String)
        ensures
            r@ == stored_name_of(self@),
    {
        self.midi.name().as_str().to_owned()
    }

    /// The parameters holding a value they do not accept, by display name
    /// (`Program::invalid`).
    ///
    /// Trusted: named by [`invalid_of`].
    #[verifier::external_body]
    pub fn invalid(&self) -> (r: Vec<(String, u8)>)
        ensures
            r@.len() == invalid_of(self@).len(),
            forall|i: int|
                0 <= i < r@.len() ==> (#[trigger] r@[i]).0@ == invalid_of(self@)[i].0 && r@[i].1
                    == invalid_of(self@)[i].1,
    {
        self.midi.invalid().map(|(parameter, value)| (parameter.name().to_owned(), value)).collect()
    }
}

/// The dump `Program::new` builds for a protocol version: every parameter
/// at the lowest value it accepts.
pub uninterp spec fn lowest_dump(version: u8) -> Seq<u8>;

/// A dump with its name field (seventeen bytes from offset 223) holding a
/// name's characters and zeros after them.
pub open spec fn with_name(data: Seq<u8>, name: Seq<char>) -> Seq<u8> {
    Seq::new(
        data.len(),
        |i: int|
            if 223 <= i < 240 {
                if i - 223 < name.len() {
                    (name[i - 223] as u32) as u8
                } else {
                    0u8
                }
            } else {
                data[i]
            },
    )
}

/// The `.syx` frame `Writer::push_program` writes for a program stored at
/// A1, as a whole file.
pub uninterp spec fn a1_frame(program: (u8, Seq<u8>)) -> Seq<u8>;

impl StoredProgram {
    /// A program with every parameter at the lowest value it accepts, under
    /// protocol version 6 or 7 (`Program::new`).
    ///
    /// Trusted: the dump is named by [`lowest_dump`]; a version 6 program
    /// carries 242 bytes and a version 7 program 245.
    #[verifier::external_body]
    pub fn lowest(version: u8) -> (r: StoredProgram)
        requires
            version == 6 || version == 7,
        ensures
            r@ == (version, lowest_dump(version)),
            r.wf(),
    {
        let v = match version {
            6 => deepmind_midi::ids::ProtocolVersion::V6,
            _ => deepmind_midi::ids::ProtocolVersion::V7,
        };
        StoredProgram::carrying(deepmind_midi::program::Program::new(v))
    }

    /// Writes a name into the name field (`ProgramName::new` and
    /// `Program::set_name`).
    ///
    /// Trusted: the source writes the name's bytes from offset 223 and zeros
    /// up to the seventeenth byte, and touches nothing else.
    #[verifier::external_body]
    pub fn rename(&mut self, name: &str)
        requires
            old(self).wf(),
            is_program_name(name@),
        ensures
            final(self)@ == (old(self)@.0, with_name(old(self)@.1, name@)),
            final(self).wf(),
    {
        if let Ok(name) = deepmind_midi::program::ProgramName::new(name) {
            self.midi.set_name(name);
            self.data = self.midi.as_bytes().to_vec();
        }
    }

    /// Stores a category value (`Program::set` on `ProgramCategory`).
    ///
    /// Trusted: the source accepts 0 to 16 and writes the byte at offset 240;
    /// it refuses anything else and changes nothing.
    #[verifier::external_body]
    pub fn set_category(&mut self, value: u8) -> (r: Result<(), String>)
        requires
            old(self).wf(),
        ensures
            r is Ok <==> value <= 16,
            r is Ok ==> final(self)@ == (old(self)@.0, old(self)@.1.update(240, value)),
            r is Err ==> final(self)@ == old(self)@,
            final(self).wf(),
    {
        match self.midi.set(deepmind_midi::ParamId::ProgramCategory, value) {
            Ok(()) => {
                self.data = self.midi.as_bytes().to_vec();
                Ok(())
            },
            Err(error) => Err(error.to_string()),
        }
    }

    /// The `.syx` file that stores this program at A1, addressed to every
    /// device (`Writer::push_program` into a buffer of
    /// `MAX_PROGRAM_FRAME_LEN`).
    ///
    /// Trusted: the bytes are named by [`a1_frame`], a function of the
    /// program; the crate's reader hands the program back from them, stored
    /// at A1 (its own tests write files and read them back so). The writer
    /// refuses only when the rest of its buffer cannot hold the frame, and the
    /// buffer holds the longest frame there is, so it never refuses here.
    #[verifier::external_body]
    pub fn a1_file(&self) -> (r: Result<Vec<u8>, String>)
        ensures
            r is Ok,
            r matches Ok(bytes) ==> bytes@ == a1_frame(self@),
            r matches Ok(bytes) ==> syx_entries(bytes@) == seq![
                Ok::<(Option<(u8, u8)>, (u8, Seq<u8>)), Seq<char>>((Some((0u8, 0u8)), self@)),
            ],
    {
        let mut buffer = vec![0u8; deepmind_midi::syx::MAX_PROGRAM_FRAME_LEN];
        let mut writer = deepmind_midi::syx::Writer::new(&mut buffer, deepmind_midi::ids::DeviceId::Broadcast);
        let pushed = writer.push_program(deepmind_midi::ids::Bank::A, deepmind_midi::ids::ProgramNumber::FIRST, &self.midi);
        let written = writer.finish();
        pushed.map(|_| buffer[..written].to_vec()).map_err(|error| error.to_string())
    }
}

impl Clone for StoredProgram {
    fn clone(&self) -> (r: StoredProgram)
        ensures
            r@ == self@,
    {
        StoredProgram { version: self.version, data: self.data.clone(), midi: self.midi_clone() }
    }
}

impl StoredProgram {
    #[verifier::external_body]
    fn midi_clone(&self) -> deepmind_midi::program::Program {
        self.midi.clone()
    }
}

/// How the front panel writes a slot: the bank letter, then the program
/// number from 1.
pub open spec fn slot_text(slot: (u8, u8)) -> Seq<char> {
    seq![(('A' as u32) + slot.0) as char] + decimal(slot.1 as nat + 1)
}

/// How the front panel writes a slot: `A1` through `H128`.
pub fn slot_to_string(slot: (u8, u8)) -> (s: String)
    requires
        slot.0 < 8,
    ensures
        s@ == slot_text(slot),
{
    let mut s = String::new();
    push_char(&mut s, char_of_ascii(65 + slot.0));
    push_decimal(&mut s, slot.1 as u64 + 1);
    s
}

} // verus!
