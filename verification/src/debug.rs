use vstd::prelude::*;

verus! {

/// Severity of a diagnostic message.
#[derive(Clone, Copy, PartialEq, Eq, Structural, Debug)]
pub enum Level {
    Debug,
    Info,
    Warn,
    Error,
    Fatal,
}

impl Level {
    /// The terminal colour prefix a message of this severity is wrapped in;
    /// empty for severities printed unstyled.  The writing itself is serial
    /// I/O and lives with the device layer.
    pub fn color_prefix(&self) -> (s: &'static str)
        ensures
            *self is Warn ==> s@ == "\x1b[33;1m"@,
            *self is Error ==> s@ == "\x1b[31;1m"@,
            *self is Fatal ==> s@ == "\x1b[41;1m"@,
            (*self is Debug || *self is Info) ==> s@ == ""@,
    {
        match self {
            Level::Warn => "\x1b[33;1m",
            Level::Error => "\x1b[31;1m",
            Level::Fatal => "\x1b[41;1m",
            _ => "",
        }
    }
}

} // verus!
