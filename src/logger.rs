//! Log levels and the formatting and filtering of log lines.
use vstd::prelude::*;

use crate::paths::{join_all, join_path, texts};

verus! {

/// Severity levels, from `Off` (log nothing) to `All` (log everything).
#[derive(Clone, Copy, PartialEq, Eq, Structural, Debug)]
pub enum LogLevel {
    Off,
    Error,
    Warn,
    Debug,
    Info,
    All,
}

/// The rank of a level: a message is logged when its rank is at most the
/// logger's.
pub open spec fn rank(l: LogLevel) -> u8 {
    match l {
        LogLevel::Off => 0,
        LogLevel::Error => 1,
        LogLevel::Warn => 2,
        LogLevel::Debug => 3,
        LogLevel::Info => 4,
        LogLevel::All => 5,
    }
}

/// The level of a rank; ranks above 5 count as `All`.
pub open spec fn level_of_rank(r: u8) -> LogLevel {
    if r == 0 {
        LogLevel::Off
    } else if r == 1 {
        LogLevel::Error
    } else if r == 2 {
        LogLevel::Warn
    } else if r == 3 {
        LogLevel::Debug
    } else if r == 4 {
        LogLevel::Info
    } else {
        LogLevel::All
    }
}

pub open spec fn level_name(l: LogLevel) -> Seq<char> {
    match l {
        LogLevel::Off => "Off"@,
        LogLevel::Error => "Error"@,
        LogLevel::Warn => "Warn"@,
        LogLevel::Debug => "Debug"@,
        LogLevel::Info => "Info"@,
        LogLevel::All => "All"@,
    }
}

impl LogLevel {
    pub fn rank(&self) -> (r: u8)
        ensures
            r == rank(*self),
    {
        match self {
            LogLevel::Off => 0,
            LogLevel::Error => 1,
            LogLevel::Warn => 2,
            LogLevel::Debug => 3,
            LogLevel::Info => 4,
            LogLevel::All => 5,
        }
    }

    pub fn from_rank(r: u8) -> (l: LogLevel)
        ensures
            l == level_of_rank(r),
    {
        match r {
            0 => LogLevel::Off,
            1 => LogLevel::Error,
            2 => LogLevel::Warn,
            3 => LogLevel::Debug,
            4 => LogLevel::Info,
            _ => LogLevel::All,
        }
    }

    /// The level's name as it appears in a log line.
    pub fn name(&self) -> (r: String)
        ensures
            r@ == level_name(*self),
    {
        match self {
            LogLevel::Off => String::from_str("Off"),
            LogLevel::Error => String::from_str("Error"),
            LogLevel::Warn => String::from_str("Warn"),
            LogLevel::Debug => String::from_str("Debug"),
            LogLevel::Info => String::from_str("Info"),
            LogLevel::All => String::from_str("All"),
        }
    }
}

/// The line written for a message: `[timestamp] [Level] message`.
pub open spec fn log_line(timestamp: Seq<char>, l: LogLevel, msg: Seq<char>) -> Seq<char> {
    "["@ + timestamp + "] ["@ + level_name(l) + "] "@ + msg + "\n"@
}

/// A logger's threshold and the directory of its log file.
pub struct Logger {
    level: u8,
    dir: String,
}

impl Logger {
    pub closed spec fn spec_rank(&self) -> u8 {
        self.level
    }

    pub closed spec fn spec_dir(&self) -> Seq<char> {
        self.dir@
    }

    /// A logger at level `Info` whose files go to the `logs` directory of
    /// this application under `config_dir`.
    pub fn new(config_dir: &str) -> (r: Logger)
        ensures
            r.spec_rank() == rank(LogLevel::Info),
            r.spec_dir() == join_all(
                seq![config_dir@, "@shadowdara"@, "flua"@, "logs"@],
            ),
    {
        let mut parts: Vec<String> = Vec::new();
        parts.push(String::from_str(config_dir));
        parts.push(String::from_str("@shadowdara"));
        parts.push(String::from_str("flua"));
        parts.push(String::from_str("logs"));
        assert(texts(parts@) =~= seq![config_dir@, "@shadowdara"@, "flua"@, "logs"@]);
        Logger { level: 4, dir: join_path(parts) }
    }

    /// A logger at `level` writing to the directory `dir`.
    pub fn with_dir(dir: String, level: LogLevel) -> (r: Logger)
        ensures
            r.spec_rank() == rank(level),
            r.spec_dir() == dir@,
    {
        Logger { level: level.rank(), dir }
    }

    /// Whether a message of `level` is written.
    pub fn enabled(&self, level: LogLevel) -> (r: bool)
        ensures
            r == (level != LogLevel::Off && rank(level) <= self.spec_rank()),
    {
        !(level.rank() > self.level || level == LogLevel::Off)
    }

    /// The line to append to the log file for `msg` at `level`, if that
    /// level is enabled.
    pub fn entry(&self, level: LogLevel, msg: &str, timestamp: &str) -> (r: Option<String>)
        ensures
            r matches Some(line) ==> level != LogLevel::Off && rank(level) <= self.spec_rank()
                && line@ == log_line(timestamp@, level, msg@),
            r is None ==> !(level != LogLevel::Off && rank(level) <= self.spec_rank()),
    {
        if !self.enabled(level) {
            return None;
        }
        let mut line = String::from_str("[");
        line.append(timestamp);
        line.append("] [");
        line.append(level.name().as_str());
        line.append("] ");
        line.append(msg);
        line.append("\n");
        Some(line)
    }

    /// The line for an error message, if errors are enabled.
    pub fn error(&self, msg: &str, timestamp: &str) -> (r: Option<String>)
        ensures
            r matches Some(line) ==> rank(LogLevel::Error) <= self.spec_rank() && line@ == log_line(
                timestamp@,
                LogLevel::Error,
                msg@,
            ),
            r is None ==> rank(LogLevel::Error) > self.spec_rank(),
    {
        self.entry(LogLevel::Error, msg, timestamp)
    }

    /// The line for a warning, if warnings are enabled.
    pub fn warn(&self, msg: &str, timestamp: &str) -> (r: Option<String>)
        ensures
            r matches Some(line) ==> rank(LogLevel::Warn) <= self.spec_rank() && line@ == log_line(
                timestamp@,
                LogLevel::Warn,
                msg@,
            ),
            r is None ==> rank(LogLevel::Warn) > self.spec_rank(),
    {
        self.entry(LogLevel::Warn, msg, timestamp)
    }

    /// The line for a debug message, if debug messages are enabled.
    pub fn debug(&self, msg: &str, timestamp: &str) -> (r: Option<String>)
        ensures
            r matches Some(line) ==> rank(LogLevel::Debug) <= self.spec_rank() && line@ == log_line(
                timestamp@,
                LogLevel::Debug,
                msg@,
            ),
            r is None ==> rank(LogLevel::Debug) > self.spec_rank(),
    {
        self.entry(LogLevel::Debug, msg, timestamp)
    }

    /// The line for an informational message, if those are enabled.
    pub fn info(&self, msg: &str, timestamp: &str) -> (r: Option<String>)
        ensures
            r matches Some(line) ==> rank(LogLevel::Info) <= self.spec_rank() && line@ == log_line(
                timestamp@,
                LogLevel::Info,
                msg@,
            ),
            r is None ==> rank(LogLevel::Info) > self.spec_rank(),
    {
        self.entry(LogLevel::Info, msg, timestamp)
    }

    /// The directory the log file lives in.
    pub fn log_dir(&self) -> (r: &String)
        ensures
            r@ == self.spec_dir(),
    {
        &self.dir
    }

    /// The path of the log file.
    pub fn log_file(&self) -> (r: String)
        ensures
            r@ == join_all(seq![self.spec_dir(), "flua.log"@]),
    {
        let mut parts: Vec<String> = Vec::new();
        parts.push(self.dir.clone());
        parts.push(String::from_str("flua.log"));
        assert(texts(parts@) =~= seq![self.spec_dir(), "flua.log"@]);
        join_path(parts)
    }

    /// The current threshold.
    pub fn level(&self) -> (r: LogLevel)
        ensures
            r == level_of_rank(self.spec_rank()),
    {
        LogLevel::from_rank(self.level)
    }

    /// Sets the threshold.
    pub fn set_level(&mut self, level: LogLevel)
        ensures
            final(self).spec_rank() == rank(level),
            final(self).spec_dir() == old(self).spec_dir(),
    {
        self.level = level.rank();
    }
}

} // verus!
