//! Logging levels and their display colors.
//!
//! Rendering with a terminal-color crate is the caller's business; the level
//! and the color it maps to are plain data of the library.

use vstd::prelude::*;

verus! {

/// A logging level.
#[derive(Clone, Copy, PartialEq, Eq, Structural, Debug)]
pub enum LogLevel {
    /// Informational message.
    Info,
    /// Successful completion.
    Success,
    /// Warning.
    Warning,
    /// Recoverable error.
    Error,
    /// Programming error.
    Bug,
    /// Unrecoverable error.
    Fatal,
    /// Debugging message.
    Debug,
    /// Tracing message.
    Trace,
}

/// A display color for a logging level.
#[derive(Clone, Copy, PartialEq, Eq, Structural, Debug)]
pub enum LogColor {
    /// Blue.
    Blue,
    /// Green.
    Green,
    /// Yellow.
    Yellow,
    /// Red.
    Red,
    /// Bright red.
    BrightRed,
    /// Magenta.
    Magenta,
    /// Cyan.
    Cyan,
}

/// The color of each level as the specification sees it.
pub open spec fn spec_level_color(level: LogLevel) -> LogColor {
    match level {
        LogLevel::Info => LogColor::Blue,
        LogLevel::Success => LogColor::Green,
        LogLevel::Warning => LogColor::Yellow,
        LogLevel::Error => LogColor::Red,
        LogLevel::Bug => LogColor::BrightRed,
        LogLevel::Fatal => LogColor::BrightRed,
        LogLevel::Debug => LogColor::Magenta,
        LogLevel::Trace => LogColor::Cyan,
    }
}

impl LogLevel {
    /// The color this level is displayed in.
    pub fn style(&self) -> (r: LogColor)
        ensures
            r == spec_level_color(*self),
    {
        match self {
            LogLevel::Info => LogColor::Blue,
            LogLevel::Success => LogColor::Green,
            LogLevel::Warning => LogColor::Yellow,
            LogLevel::Error => LogColor::Red,
            LogLevel::Bug => LogColor::BrightRed,
            LogLevel::Fatal => LogColor::BrightRed,
            LogLevel::Debug => LogColor::Magenta,
            LogLevel::Trace => LogColor::Cyan,
        }
    }
}

} // verus!
