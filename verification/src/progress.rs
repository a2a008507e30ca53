//! Whether progress is shown.

use vstd::prelude::*;

verus! {

/// How the question of showing progress was settled.
#[derive(Debug, Clone, Copy, PartialEq, Eq, Structural)]
pub enum ProgressConfig {
    /// Left to the terminal: progress is shown where the error stream is one.
    Auto,
    ForceEnable,
    ForceDisable,
}

/// `atty::is` for the error stream: whether it is a terminal. The answer
/// depends on how the process was started.
#[verifier::external_body]
pub(crate) fn stderr_is_terminal() -> (out: bool) {
    atty::is(atty::Stream::Stderr)
}

impl ProgressConfig {
    /// The flag that asks for progress wins over the one that forbids it,
    /// and both win over the configuration.
    pub open spec fn spec_from_flags(
        progress_flag: bool,
        no_progress_flag: bool,
        config_value: Option<bool>,
    ) -> ProgressConfig {
        if progress_flag {
            ProgressConfig::ForceEnable
        } else if no_progress_flag {
            ProgressConfig::ForceDisable
        } else {
            match config_value {
                Some(true) => ProgressConfig::ForceEnable,
                Some(false) => ProgressConfig::ForceDisable,
                None => ProgressConfig::Auto,
            }
        }
    }

    /// Settles the question from the flags of the command and the
    /// configuration.
    pub fn from_flags(progress_flag: bool, no_progress_flag: bool, config_value: Option<bool>) -> (out:
        Self)
        ensures
            out == Self::spec_from_flags(progress_flag, no_progress_flag, config_value),
    {
        if progress_flag {
            ProgressConfig::ForceEnable
        } else if no_progress_flag {
            ProgressConfig::ForceDisable
        } else {
            match config_value {
                Some(true) => ProgressConfig::ForceEnable,
                Some(false) => ProgressConfig::ForceDisable,
                None => ProgressConfig::Auto,
            }
        }
    }

    /// Whether progress is shown, given whether the error stream is a
    /// terminal.
    pub open spec fn shows(&self, terminal: bool) -> bool {
        match self {
            ProgressConfig::Auto => terminal,
            ProgressConfig::ForceEnable => true,
            ProgressConfig::ForceDisable => false,
        }
    }

    /// Whether progress is shown, given whether the error stream is a
    /// terminal.
    pub fn shows_on(&self, terminal: bool) -> (out: bool)
        ensures
            out == self.shows(terminal),
    {
        match self {
            ProgressConfig::Auto => terminal,
            ProgressConfig::ForceEnable => true,
            ProgressConfig::ForceDisable => false,
        }
    }

    /// Whether progress is shown in this process.
    pub fn should_show_progress(&self) -> (out: bool)
        ensures
            *self == ProgressConfig::ForceEnable ==> out,
            *self == ProgressConfig::ForceDisable ==> !out,
    {
        match self {
            ProgressConfig::Auto => self.shows_on(stderr_is_terminal()),
            ProgressConfig::ForceEnable => true,
            ProgressConfig::ForceDisable => false,
        }
    }
}

} // verus!
