//! Command-line presentation decisions.

use vstd::prelude::*;

verus! {

/// How log output is colored.
#[derive(Clone, Copy, Debug, PartialEq, Eq, Structural)]
pub enum ColorMode {
    /// Colors follow whether standard output is a terminal.
    Auto,
    /// Colors are always on.
    On,
    /// Colors are always off.
    Off,
}

impl ColorMode {
    /// Decides whether output gets colors; `Auto` follows the given
    /// terminal probe.
    pub fn colorful(self, stdout_is_tty: bool) -> (r: bool)
        ensures
            r == match self {
                ColorMode::Auto => stdout_is_tty,
                ColorMode::On => true,
                ColorMode::Off => false,
            },
    {
        match self {
            ColorMode::Auto => stdout_is_tty,
            ColorMode::On => true,
            ColorMode::Off => false,
        }
    }
}

} // verus!
