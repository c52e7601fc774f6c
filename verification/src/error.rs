//! Rejections of ill-formed configuration.

use vstd::prelude::*;

verus! {

/// Why a value was refused at construction.
#[derive(Clone, Copy, Debug, PartialEq, Eq, Structural)]
pub enum ConfigError {
    /// A palette needs at least one control point.
    EmptyPalette,
    /// Both half-extents of a viewport must be greater than zero.
    NonPositiveExtent,
    /// The distance moved per tick must be greater than zero.
    NonPositiveSpeed,
}

impl ConfigError {
    /// The text that [`ConfigError::message`] returns.
    pub open spec fn description(self) -> Seq<char> {
        match self {
            ConfigError::EmptyPalette => "palette has no control points"@,
            ConfigError::NonPositiveExtent => "viewport half-extent is not positive"@,
            ConfigError::NonPositiveSpeed => "move speed is not positive"@,
        }
    }

    /// A description of the error for a human reader.
    pub fn message(&self) -> (text: String)
        ensures
            text@ == self.description(),
    {
        match self {
            ConfigError::EmptyPalette => "palette has no control points".to_owned(),
            ConfigError::NonPositiveExtent => "viewport half-extent is not positive".to_owned(),
            ConfigError::NonPositiveSpeed => "move speed is not positive".to_owned(),
        }
    }
}

} // verus!
