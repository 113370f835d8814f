//! What the engine takes from its configuration.

use vstd::prelude::*;

verus! {

/// Most voices a pool can hold.
pub const MAX_VOICES: usize = 32;

/// What the program is asked to do.
#[derive(Clone, Copy, Debug, PartialEq, Eq)]
pub enum Command {
    /// Play: the default.
    Run,
    /// List the audio devices and leave.
    ListDevices,
}

/// What the engine is built from. Durations are in nanoseconds, the sustain
/// level is a fraction of [`crate::maths::ONE`], and the modulation rate is in
/// thousandths of a hertz.
#[derive(Clone, Copy, Debug, PartialEq, Eq)]
pub struct Settings {
    /// Voices asked for; see [`voice_count`].
    pub voices: u64,
    pub attack: u64,
    pub decay: u64,
    pub sustain: u32,
    pub release: u64,
    pub mod_rate: u32,
}

/// How much the program says, from nothing to everything.
#[derive(Clone, Copy, Debug, PartialEq, Eq)]
pub enum LogLevel {
    Off,
    Error,
    Warn,
    Info,
    Debug,
    Trace,
}

/// Place of the level in the row from `Off`, 0, to `Trace`, 5: it starts at
/// `Info`, goes up one for each `verbose`, down one for each `quiet`, and
/// stops at either end.
pub open spec fn spec_log_level_index(verbose: u64, quiet: u64) -> int {
    let wanted = 3 + verbose - quiet;
    if wanted < 0 {
        0
    } else if wanted > 5 {
        5
    } else {
        wanted
    }
}

/// The level at a place in the row; past the end it is `Trace`.
pub open spec fn level_at(index: int) -> LogLevel {
    if index <= 0 {
        LogLevel::Off
    } else if index == 1 {
        LogLevel::Error
    } else if index == 2 {
        LogLevel::Warn
    } else if index == 3 {
        LogLevel::Info
    } else if index == 4 {
        LogLevel::Debug
    } else {
        LogLevel::Trace
    }
}

/// The level to log at, for the number of times more and less was asked for.
pub fn log_level(verbose: u64, quiet: u64) -> (level: LogLevel)
    ensures
        level == level_at(spec_log_level_index(verbose, quiet)),
{
    if quiet >= verbose {
        let less: u64 = quiet - verbose;
        if less >= 3 {
            LogLevel::Off
        } else if less == 2 {
            LogLevel::Error
        } else if less == 1 {
            LogLevel::Warn
        } else {
            LogLevel::Info
        }
    } else {
        let more: u64 = verbose - quiet;
        if more >= 2 {
            LogLevel::Trace
        } else {
            LogLevel::Debug
        }
    }
}

/// Whether output with `count` channels can be written: mono or stereo.
pub fn supported_channel_count(count: u16) -> (supported: bool)
    ensures
        supported == (count == 1 || count == 2),
{
    count == 1 || count == 2
}

/// Size of the pool for a requested number of voices: zero
/// means as many as there can be, and more than that is cut down to it.
pub open spec fn spec_voice_count(requested: u64) -> int {
    if requested == 0 || requested > MAX_VOICES {
        MAX_VOICES as int
    } else {
        requested as int
    }
}

/// The number of voices to make the pool with.
pub fn voice_count(requested: u64) -> (count: usize)
    ensures
        count == spec_voice_count(requested),
        1 <= count <= MAX_VOICES,
{
    if requested == 0 || requested > MAX_VOICES as u64 {
        MAX_VOICES
    } else {
        requested as usize
    }
}

} // verus!
