//! The driver's logger: one level and up to two destinations, the
//! debugger's output and the system event log under a source name.

use vstd::prelude::*;

verus! {

/// How severe a log record is, from the most severe to the least.
#[derive(Debug, Clone, Copy, PartialEq, Eq, Structural)]
pub enum Level {
    Error,
    Warn,
    Info,
    Debug,
    Trace,
}

/// The place of a level in the order from the most severe (1) to the least
/// severe (5).
pub open spec fn level_rank(l: Level) -> int {
    match l {
        Level::Error => 1,
        Level::Warn => 2,
        Level::Info => 3,
        Level::Debug => 4,
        Level::Trace => 5,
    }
}

impl Level {
    /// The place of the level in the order from the most severe (1) to the
    /// least severe (5).
    pub fn rank(&self) -> (res: u8)
        ensures
            res == level_rank(*self),
    {
        match self {
            Level::Error => 1,
            Level::Warn => 2,
            Level::Info => 3,
            Level::Debug => 4,
            Level::Trace => 5,
        }
    }
}

/// Where a record goes.
#[derive(Debug, Clone, Copy, PartialEq, Eq, Structural)]
pub struct LogTargets {
    pub debugger: bool,
    pub event_log: bool,
}

/// A logger that writes the records at its level or more severe to the
/// destinations set up on it.
#[derive(Debug)]
pub struct DriverLogger {
    pub level: Level,
    debugger: Option<Level>,
    event_source: Option<String>,
}

impl DriverLogger {
    /// The logger's level.
    pub closed spec fn current_level(&self) -> Level {
        self.level
    }

    /// The level the debugger output was set up with, if it was.
    pub closed spec fn debugger_level(&self) -> Option<Level> {
        self.debugger
    }

    /// The event log source name, if the event log was set up.
    pub closed spec fn event_source_name(&self) -> Option<Seq<char>> {
        match self.event_source {
            Some(s) => Some(s@),
            None => None,
        }
    }

    /// A logger at `level` with no destination yet.
    pub fn new(level: Level) -> (res: Self)
        ensures
            res.current_level() == level,
            res.debugger_level() is None,
            res.event_source_name() is None,
    {
        DriverLogger { level, debugger: None, event_source: None }
    }

    /// Also writes to the debugger's output, at the logger's level.
    pub fn debug(&mut self) -> (res: &mut Self)
        ensures
            res.current_level() == old(self).current_level(),
            res.debugger_level() == Some(old(self).current_level()),
            res.event_source_name() == old(self).event_source_name(),
            *final(self) == *final(res),
    {
        self.debugger = Some(self.level);
        self
    }

    /// Also writes to the system event log under the source `name`, given
    /// the outcome of registering that source with the system: when the
    /// registration failed, its error is returned and the logger is left
    /// as it was.
    pub fn name(&mut self, name: &str, registration: Result<(), String>) -> (res: Result<&mut Self, String>)
        ensures
            match registration {
                Ok(()) => res matches Ok(l) && {
                    &&& l.current_level() == old(self).current_level()
                    &&& l.debugger_level() == old(self).debugger_level()
                    &&& l.event_source_name() == Some(name@)
                    &&& *final(self) == *final(l)
                },
                Err(e) => res matches Err(r) && r == e && *final(self) == *old(self),
            },
    {
        match registration {
            Ok(()) => {
                self.event_source = Some(name.to_owned());
                Ok(self)
            },
            Err(e) => Err(e),
        }
    }

    /// The event log source name, if the event log was set up.
    pub fn event_source(&self) -> (res: Option<&String>)
        ensures
            match res {
                Some(s) => self.event_source_name() == Some(s@),
                None => self.event_source_name() is None,
            },
    {
        match &self.event_source {
            Some(s) => Some(s),
            None => None,
        }
    }

    /// Whether a record of this level is written at all: it is at least as
    /// severe as the logger's level.
    pub fn enabled(&self, level: Level) -> (res: bool)
        ensures
            res == (level_rank(level) <= level_rank(self.current_level())),
    {
        level.rank() <= self.level.rank()
    }

    /// Where a record of this level goes: nowhere unless it is enabled, and
    /// then to each destination that was set up.
    pub fn targets(&self, level: Level) -> (res: LogTargets)
        ensures
            res.debugger == (level_rank(level) <= level_rank(self.current_level()) && self.debugger_level() is Some),
            res.event_log == (level_rank(level) <= level_rank(self.current_level()) && self.event_source_name() is Some),
    {
        if !self.enabled(level) {
            return LogTargets { debugger: false, event_log: false };
        }
        LogTargets { debugger: self.debugger.is_some(), event_log: self.event_source.is_some() }
    }
}

} // verus!
