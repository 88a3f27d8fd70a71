//! Log levels and the formatting of log lines. Writing the line out is
//! the boundary layer's job.

use vstd::prelude::*;

verus! {

use vstd::string::StringExecFns;

/// Severity of a log line.
#[derive(Clone, Copy, Debug)]
pub enum Level {
    Info,
    Warn,
    Error,
    Fatal,
}

impl Level {
    /// The level's name, as it appears in a log line.
    pub open spec fn spec_name(self) -> Seq<char> {
        match self {
            Level::Info => "Info"@,
            Level::Warn => "Warn"@,
            Level::Error => "Error"@,
            Level::Fatal => "Fatal"@,
        }
    }

    /// The level's name, as it appears in a log line.
    pub fn name(self) -> (s: &'static str)
        ensures
            s@ == self.spec_name(),
    {
        match self {
            Level::Info => "Info",
            Level::Warn => "Warn",
            Level::Error => "Error",
            Level::Fatal => "Fatal",
        }
    }
}

/// The logger. It only formats; the boundary layer prints.
#[derive(Clone)]
pub struct Logger {}

impl Logger {
    pub fn new() -> (l: Self) {
        Logger {  }
    }

    /// Formats one log line as `[Level] message`.
    pub fn log_line(&self, level: Level, msg: &str) -> (line: String)
        ensures
            line@ == "["@ + level.spec_name() + "] "@ + msg@,
    {
        let mut line = String::from_str("[");
        line.append(level.name());
        line.append("] ");
        line.append(msg);
        line
    }
}

} // verus!
