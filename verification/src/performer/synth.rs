//! The synthesis choices of the performer: backends, instruments, envelope phases.
use vstd::prelude::*;

use std::path::PathBuf;

verus! {

#[verifier::external_type_specification]
#[verifier::external_body]
pub struct ExPathBuf(std::path::PathBuf);

/// Which backend renders a score.
#[derive(Debug, Clone, Copy, PartialEq, Eq, Structural)]
pub enum SynthType {
    Builtin,
    Soundfont,
    Midi,
}

/// Instrument timbre presets.
#[derive(Debug, Clone, Copy, PartialEq, Eq, Structural)]
pub enum Instrument {
    Piano,
    Strings,
    Cello,
    Flute,
    Organ,
    Clarinet,
    Trumpet,
}

impl Default for Instrument {
    fn default() -> (r: Instrument)
        ensures
            r == Instrument::Piano,
    {
        Instrument::Piano
    }
}

/// The phases of an attack-decay-sustain-release envelope.
#[derive(Debug, Clone, Copy, PartialEq, Eq, Structural)]
pub enum AdsrPhase {
    Attack,
    Decay,
    Sustain,
    Release,
    Done,
}

/// The built-in synthesizer; fidelity 0 is pure sine waves, 1 adds an envelope.
pub struct BuiltinSynth {
    pub fidelity: u8,
}

/// The display name of the built-in synthesizer at a fidelity.
pub open spec fn builtin_name(fidelity: u8) -> Seq<char> {
    if fidelity == 0 {
        "built-in (sine)"@
    } else if fidelity == 1 {
        "built-in (sine + ADSR)"@
    } else {
        "built-in"@
    }
}

impl BuiltinSynth {
    pub fn new(fidelity: u8) -> (r: BuiltinSynth)
        ensures
            r.fidelity == fidelity,
    {
        BuiltinSynth { fidelity }
    }

    /// The backend's display name.
    pub fn name(&self) -> (r: &'static str)
        ensures
            r@ == builtin_name(self.fidelity),
    {
        match self.fidelity {
            0 => "built-in (sine)",
            1 => "built-in (sine + ADSR)",
            _ => "built-in",
        }
    }
}

/// The General MIDI program of an instrument preset.
pub open spec fn gm_program(instrument: Instrument) -> u8 {
    match instrument {
        Instrument::Piano => 0,
        Instrument::Strings => 48,
        Instrument::Cello => 42,
        Instrument::Flute => 73,
        Instrument::Organ => 19,
        Instrument::Clarinet => 71,
        Instrument::Trumpet => 56,
    }
}

/// A synthesizer that renders through a SoundFont file, optionally switching to a
/// General MIDI program first.
pub struct SoundFontSynth {
    sf2_path: PathBuf,
    program: Option<u8>,
}

impl SoundFontSynth {
    /// The SoundFont file.
    pub closed spec fn path(&self) -> PathBuf {
        self.sf2_path
    }

    /// The program selected before rendering, if any.
    pub closed spec fn program_spec(&self) -> Option<u8> {
        self.program
    }

    /// A SoundFont synthesizer that keeps the file's default program.
    pub fn new(sf2_path: PathBuf) -> (r: SoundFontSynth)
        ensures
            r.path() == sf2_path,
            r.program_spec() == None::<u8>,
    {
        SoundFontSynth { sf2_path, program: None }
    }

    /// A SoundFont synthesizer that selects the General MIDI program of the instrument.
    pub fn with_instrument(sf2_path: PathBuf, instrument: Instrument) -> (r: SoundFontSynth)
        ensures
            r.path() == sf2_path,
            r.program_spec() == Some(gm_program(instrument)),
    {
        let program: u8 = match instrument {
            Instrument::Piano => 0,
            Instrument::Strings => 48,
            Instrument::Cello => 42,
            Instrument::Flute => 73,
            Instrument::Organ => 19,
            Instrument::Clarinet => 71,
            Instrument::Trumpet => 56,
        };
        SoundFontSynth { sf2_path, program: Some(program) }
    }

    /// The SoundFont file.
    pub fn sf2_path(&self) -> (r: &PathBuf)
        ensures
            *r == self.path(),
    {
        &self.sf2_path
    }

    /// The program selected before rendering, if any.
    pub fn program(&self) -> (r: Option<u8>)
        ensures
            r == self.program_spec(),
    {
        self.program
    }

    /// The backend's display name.
    pub fn name(&self) -> (r: &'static str)
        ensures
            r@ == "soundfont"@,
    {
        "soundfont"
    }
}

} // verus!
