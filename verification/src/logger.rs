//! The kernel log: leveled entries with a bounded in-memory buffer.  The
//! serial and screen sinks live outside this crate; the logger keeps the
//! entries and their display form.

use vstd::prelude::*;
use crate::strutil::{append_str, append_u64_pad, dec_str_pad, push_char};
use crate::vga::Color;

verus! {

/// How many entries the in-memory buffer keeps at most.
pub const MAX_LOG_BUFFER: usize = 1000;

/// Log severities, least severe first.
#[derive(Debug, Clone, Copy, PartialEq, Eq, Structural)]
pub enum LogLevel {
    Debug,
    Info,
    Warning,
    Error,
    Critical,
}

impl LogLevel {
    /// The numeric rank of a severity; higher is more severe.
    pub open spec fn rank(self) -> nat {
        match self {
            LogLevel::Debug => 0,
            LogLevel::Info => 1,
            LogLevel::Warning => 2,
            LogLevel::Error => 3,
            LogLevel::Critical => 4,
        }
    }

    /// The severity's display name.
    pub open spec fn str_spec(self) -> Seq<char> {
        match self {
            LogLevel::Debug => "DEBUG"@,
            LogLevel::Info => "INFO"@,
            LogLevel::Warning => "WARNING"@,
            LogLevel::Error => "ERROR"@,
            LogLevel::Critical => "CRITICAL"@,
        }
    }

    /// The severity's display name.
    pub fn as_str(&self) -> (r: &'static str)
        ensures
            r@ == self.str_spec(),
    {
        match self {
            LogLevel::Debug => "DEBUG",
            LogLevel::Info => "INFO",
            LogLevel::Warning => "WARNING",
            LogLevel::Error => "ERROR",
            LogLevel::Critical => "CRITICAL",
        }
    }

    /// The screen color used for this severity.
    pub fn color(&self) -> (r: Color)
        ensures
            r == match self {
                LogLevel::Debug => Color::LightCyan,
                LogLevel::Info => Color::White,
                LogLevel::Warning => Color::Yellow,
                LogLevel::Error => Color::LightRed,
                LogLevel::Critical => Color::Red,
            },
    {
        match self {
            LogLevel::Debug => Color::LightCyan,
            LogLevel::Info => Color::White,
            LogLevel::Warning => Color::Yellow,
            LogLevel::Error => Color::LightRed,
            LogLevel::Critical => Color::Red,
        }
    }
}

/// Where log output is sent.
#[derive(Debug, Clone, Copy, PartialEq, Eq, Structural)]
pub enum LogTarget {
    Serial,
    Screen,
    Both,
    Memory,
}

/// One log entry: severity, originating module, message, and a timestamp
/// in milliseconds since boot.
#[derive(Debug, Clone)]
pub struct LogEntry {
    pub level: LogLevel,
    pub module: String,
    pub message: String,
    pub timestamp: u64,
}

/// The display form of an entry:
/// `[SSSS.mmm] LEVEL    module: message`, the level padded to eight
/// columns.
pub open spec fn log_entry_str(
    level: LogLevel,
    module: Seq<char>,
    message: Seq<char>,
    timestamp: nat,
) -> Seq<char> {
    let lvl = level.str_spec();
    let padded = if lvl.len() >= 8 {
        lvl
    } else {
        lvl + Seq::new((8 - lvl.len()) as nat, |i: int| ' ')
    };
    seq!['['] + dec_str_pad(timestamp / 1000, 4) + seq!['.']
        + dec_str_pad(timestamp % 1000, 3) + seq![']'] + seq![' '] + padded
        + seq![' '] + module + seq![':'] + seq![' '] + message
}

impl LogEntry {
    /// A fresh entry; the boot clock is outside this crate, so the
    /// timestamp is zero.
    pub fn new(level: LogLevel, module: &str, message: &str) -> (r: LogEntry)
        ensures
            r.level == level,
            r.module@ == module@,
            r.message@ == message@,
            r.timestamp == 0,
    {
        LogEntry {
            level,
            module: module.to_owned(),
            message: message.to_owned(),
            timestamp: 0,
        }
    }

    /// Formats the entry for display.
    pub fn format(&self) -> (r: String)
        ensures
            r@ == log_entry_str(self.level, self.module@, self.message@,
                self.timestamp as nat),
    {
        let mut s = String::new();
        push_char(&mut s, '[');
        append_u64_pad(&mut s, self.timestamp / 1000, 4);
        push_char(&mut s, '.');
        append_u64_pad(&mut s, self.timestamp % 1000, 3);
        push_char(&mut s, ']');
        push_char(&mut s, ' ');
        let lvl = self.level.as_str();
        append_str(&mut s, lvl);
        let lvl_len = lvl.unicode_len();
        let mut k = lvl_len;
        while k < 8
            invariant
                lvl_len == self.level.str_spec().len(),
                lvl_len <= k,
                k <= 8 || lvl_len >= 8,
                lvl_len >= 8 ==> k == lvl_len,
                s@ == seq!['['] + dec_str_pad(self.timestamp as nat / 1000, 4)
                    + seq!['.'] + dec_str_pad(self.timestamp as nat % 1000, 3)
                    + seq![']'] + seq![' '] + self.level.str_spec()
                    + Seq::new((k - lvl_len) as nat, |i: int| ' '),
            decreases 8 - k,
        {
            push_char(&mut s, ' ');
            k = k + 1;
            proof {
                assert(s@ =~= seq!['['] + dec_str_pad(self.timestamp as nat / 1000, 4)
                    + seq!['.'] + dec_str_pad(self.timestamp as nat % 1000, 3)
                    + seq![']'] + seq![' '] + self.level.str_spec()
                    + Seq::new((k - lvl_len) as nat, |i: int| ' '));
            }
        }
        push_char(&mut s, ' ');
        append_str(&mut s, self.module.as_str());
        push_char(&mut s, ':');
        push_char(&mut s, ' ');
        append_str(&mut s, self.message.as_str());
        proof {
            let lvl_s = self.level.str_spec();
            assert(k == 8 || lvl_len >= 8);
            assert(lvl_s + Seq::new((k - lvl_len) as nat, |i: int| ' ')
                =~= (if lvl_s.len() >= 8 {
                    lvl_s
                } else {
                    lvl_s + Seq::new((8 - lvl_s.len()) as nat, |i: int| ' ')
                }));
            assert(s@ =~= log_entry_str(self.level, self.module@, self.message@,
                self.timestamp as nat));
        }
        s
    }
}

/// The logger: a severity threshold, an output target, and the bounded
/// in-memory buffer of entries.
pub struct Logger {
    min_level: LogLevel,
    target: LogTarget,
    log_buffer: Vec<LogEntry>,
    max_buffer_size: usize,
}

impl Logger {
    /// The severity threshold.
    pub closed spec fn min_level_spec(&self) -> LogLevel {
        self.min_level
    }

    /// The output target.
    pub closed spec fn target_spec(&self) -> LogTarget {
        self.target
    }

    /// The buffered entries, oldest first.
    pub closed spec fn entries(&self) -> Seq<LogEntry> {
        self.log_buffer@
    }

    /// The buffer limit in force.
    pub closed spec fn max_size_spec(&self) -> nat {
        self.max_buffer_size as nat
    }

    /// The buffer never exceeds its limit.
    pub open spec fn wf(&self) -> bool {
        self.entries().len() <= self.max_size_spec() && self.max_size_spec() >= 1
    }

    /// A fresh logger: threshold `Info`, both sinks, an empty buffer.
    pub fn new() -> (r: Logger)
        ensures
            r.wf(),
            r.min_level_spec() == LogLevel::Info,
            r.target_spec() == LogTarget::Both,
            r.entries() =~= Seq::<LogEntry>::empty(),
            r.max_size_spec() == MAX_LOG_BUFFER,
    {
        Logger {
            min_level: LogLevel::Info,
            target: LogTarget::Both,
            log_buffer: Vec::new(),
            max_buffer_size: MAX_LOG_BUFFER,
        }
    }

    /// Sets the severity threshold.
    pub fn set_min_level(&mut self, level: LogLevel)
        ensures
            final(self).min_level_spec() == level,
            final(self).target_spec() == old(self).target_spec(),
            final(self).entries() == old(self).entries(),
            final(self).max_size_spec() == old(self).max_size_spec(),
    {
        self.min_level = level;
    }

    /// Sets the output target.
    pub fn set_target(&mut self, target: LogTarget)
        ensures
            final(self).target_spec() == target,
            final(self).min_level_spec() == old(self).min_level_spec(),
            final(self).entries() == old(self).entries(),
            final(self).max_size_spec() == old(self).max_size_spec(),
    {
        self.target = target;
    }

    /// Records a message: entries below the threshold are dropped, the
    /// rest are appended, and the oldest entry leaves a full buffer.
    pub fn log(&mut self, level: LogLevel, module: &str, message: &str)
        requires
            old(self).wf(),
        ensures
            final(self).wf(),
            final(self).min_level_spec() == old(self).min_level_spec(),
            final(self).target_spec() == old(self).target_spec(),
            final(self).max_size_spec() == old(self).max_size_spec(),
            level.rank() < old(self).min_level_spec().rank()
                ==> final(self).entries() == old(self).entries(),
            level.rank() >= old(self).min_level_spec().rank() ==> {
                let appended = old(self).entries().push(LogEntry {
                    level,
                    module: final(self).entries().last().module,
                    message: final(self).entries().last().message,
                    timestamp: 0,
                });
                &&& final(self).entries().last().level == level
                &&& final(self).entries().last().module@ == module@
                &&& final(self).entries().last().message@ == message@
                &&& final(self).entries().last().timestamp == 0
                &&& if old(self).entries().len() == old(self).max_size_spec() {
                    final(self).entries() == appended.drop_first()
                } else {
                    final(self).entries() == appended
                }
            },
    {
        let skip = match (level, self.min_level) {
            (LogLevel::Debug, LogLevel::Info) => true,
            (LogLevel::Debug, LogLevel::Warning) => true,
            (LogLevel::Debug, LogLevel::Error) => true,
            (LogLevel::Debug, LogLevel::Critical) => true,
            (LogLevel::Info, LogLevel::Warning) => true,
            (LogLevel::Info, LogLevel::Error) => true,
            (LogLevel::Info, LogLevel::Critical) => true,
            (LogLevel::Warning, LogLevel::Error) => true,
            (LogLevel::Warning, LogLevel::Critical) => true,
            (LogLevel::Error, LogLevel::Critical) => true,
            _ => false,
        };
        if skip {
            return;
        }
        let entry = LogEntry::new(level, module, message);
        self.log_buffer.push(entry);
        if self.log_buffer.len() > self.max_buffer_size {
            self.log_buffer.remove(0);
            proof {
                assert(final(self).entries()
                    =~= old(self).entries().push(final(self).entries().last()).drop_first());
            }
        }
    }

    /// The buffered entries.
    pub fn get_entries(&self) -> (r: &Vec<LogEntry>)
        ensures
            r@ == self.entries(),
    {
        &self.log_buffer
    }

    /// Empties the buffer.
    pub fn clear(&mut self)
        requires
            old(self).wf(),
        ensures
            final(self).wf(),
            final(self).entries() =~= Seq::<LogEntry>::empty(),
            final(self).min_level_spec() == old(self).min_level_spec(),
            final(self).target_spec() == old(self).target_spec(),
            final(self).max_size_spec() == old(self).max_size_spec(),
    {
        self.log_buffer.clear();
    }

    /// Records a debug message.
    pub fn debug(&mut self, module: &str, message: &str)
        requires
            old(self).wf(),
        ensures
            final(self).wf(),
    {
        self.log(LogLevel::Debug, module, message);
    }

    /// Records an informational message.
    pub fn info(&mut self, module: &str, message: &str)
        requires
            old(self).wf(),
        ensures
            final(self).wf(),
    {
        self.log(LogLevel::Info, module, message);
    }

    /// Records a warning.
    pub fn warning(&mut self, module: &str, message: &str)
        requires
            old(self).wf(),
        ensures
            final(self).wf(),
    {
        self.log(LogLevel::Warning, module, message);
    }

    /// Records an error.
    pub fn error(&mut self, module: &str, message: &str)
        requires
            old(self).wf(),
        ensures
            final(self).wf(),
    {
        self.log(LogLevel::Error, module, message);
    }

    /// Records a critical error.
    pub fn critical(&mut self, module: &str, message: &str)
        requires
            old(self).wf(),
        ensures
            final(self).wf(),
            final(self).entries().len() >= 1,
            final(self).entries().last().level == LogLevel::Critical,
            final(self).entries().last().message@ == message@,
    {
        self.log(LogLevel::Critical, module, message);
    }
}

} // verus!
