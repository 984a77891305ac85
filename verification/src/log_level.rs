//! Severity of a logging event.

use vstd::prelude::*;

verus! {

/// How severe a logging event is, from the most talkative level to the most
/// quiet one.
#[derive(Debug, Copy, Clone, PartialEq, Eq, PartialOrd, Ord, Structural)]
pub enum LogLevel {
    Debug,
    Info,
    Warn,
    Error,
}

impl LogLevel {
    /// The level's name, spelled like the variant.
    pub open spec fn name(self) -> Seq<char> {
        match self {
            LogLevel::Debug => "Debug"@,
            LogLevel::Info => "Info"@,
            LogLevel::Warn => "Warn"@,
            LogLevel::Error => "Error"@,
        }
    }

    /// The level's name as a string, as it is handed to the logger as its
    /// default filter.
    pub fn to_string(&self) -> (s: String)
        ensures
            s@ == self.name(),
    {
        match self {
            LogLevel::Debug => "Debug".to_owned(),
            LogLevel::Info => "Info".to_owned(),
            LogLevel::Warn => "Warn".to_owned(),
            LogLevel::Error => "Error".to_owned(),
        }
    }
}

} // verus!
