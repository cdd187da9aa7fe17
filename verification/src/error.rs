//! The failures that level data and a play session can report.

use vstd::prelude::*;

verus! {

/// Everything that can go wrong while a level is loaded or played.
///
/// `FileNotFound` and `ParseError` belong to the loader that reads the level
/// files; the other kinds are produced by this crate. Load-time kinds
/// abort start-up, the others point at level data that was never validated.
#[derive(Clone, Copy, Debug, PartialEq, Eq, Structural)]
pub enum GameError {
    /// A level, level-info or unit file could not be read.
    FileNotFound,
    /// A level, level-info or unit file is not valid JSON or RON.
    ParseError,
    /// No layer carries the id that a layer index stands for.
    LayerNotFound,
    /// A layer's tile array does not have `width * height` cells.
    LayerSizeMismatch,
    /// Two layers carry the same id.
    DuplicateLayerId,
    /// The wave index is not below the number of waves.
    WaveIndexOutOfRange,
    /// The spawn index is not below the number of units in the wave.
    SpawnIndexExhausted,
    /// The units of a wave do not fit the counter type.
    UnitCountOverflow,
    /// The coordinate lies outside the stored grid.
    CoordinateOutOfBounds,
    /// The level names no enemy spawn point.
    NoSpawnPoints,
}

impl GameError {
    /// Whether the failure stems from broken assets and ends start-up.
    pub open spec fn fatal_at_load(self) -> bool {
        self is FileNotFound || self is ParseError || self is LayerNotFound
            || self is LayerSizeMismatch || self is DuplicateLayerId || self is NoSpawnPoints
    }

    /// Tells a broken asset from a fault that appears during play.
    pub fn is_fatal_at_load(&self) -> (fatal: bool)
        ensures
            fatal == self.fatal_at_load(),
    {
        match self {
            GameError::FileNotFound => true,
            GameError::ParseError => true,
            GameError::LayerNotFound => true,
            GameError::LayerSizeMismatch => true,
            GameError::DuplicateLayerId => true,
            GameError::NoSpawnPoints => true,
            GameError::WaveIndexOutOfRange => false,
            GameError::SpawnIndexExhausted => false,
            GameError::UnitCountOverflow => false,
            GameError::CoordinateOutOfBounds => false,
        }
    }

    /// The text of the diagnostic for each kind.
    pub open spec fn message_text(self) -> Seq<char> {
        match self {
            GameError::FileNotFound => "file not found"@,
            GameError::ParseError => "malformed level data"@,
            GameError::LayerNotFound => "no layer with the requested id"@,
            GameError::LayerSizeMismatch => "layer size differs from width * height"@,
            GameError::DuplicateLayerId => "two layers share an id"@,
            GameError::WaveIndexOutOfRange => "wave index out of range"@,
            GameError::SpawnIndexExhausted => "spawn index exhausted"@,
            GameError::UnitCountOverflow => "too many units in wave"@,
            GameError::CoordinateOutOfBounds => "coordinate out of bounds"@,
            GameError::NoSpawnPoints => "level has no enemy spawn point"@,
        }
    }

    /// A diagnostic for the top-level harness to show.
    pub fn message(&self) -> (text: String)
        ensures
            text@ == self.message_text(),
    {
        match self {
            GameError::FileNotFound => "file not found".to_owned(),
            GameError::ParseError => "malformed level data".to_owned(),
            GameError::LayerNotFound => "no layer with the requested id".to_owned(),
            GameError::LayerSizeMismatch => "layer size differs from width * height".to_owned(),
            GameError::DuplicateLayerId => "two layers share an id".to_owned(),
            GameError::WaveIndexOutOfRange => "wave index out of range".to_owned(),
            GameError::SpawnIndexExhausted => "spawn index exhausted".to_owned(),
            GameError::UnitCountOverflow => "too many units in wave".to_owned(),
            GameError::CoordinateOutOfBounds => "coordinate out of bounds".to_owned(),
            GameError::NoSpawnPoints => "level has no enemy spawn point".to_owned(),
        }
    }
}

} // verus!
