//! Log levels, level filters and log records.

use crate::error::other_err;
use crate::text::{
    decimal, pad_left, pad_right, push_padded_left, push_padded_right, push_str, str_chars,
    string_from_chars, u128_to_decimal, u64_to_decimal,
};
use std::time::SystemTime;
use vstd::prelude::*;

verus! {

/// The level of a log record, from most to least severe.
#[derive(Debug, Clone, Copy, PartialEq, Eq, PartialOrd, Structural)]
pub enum Loglevel {
    /// A fatal error: the owner of the logger got into a state from which
    /// it cannot recover.
    Fatal,
    /// A non-fatal error caused by the API caller doing something wrong.
    Error,
    /// Something unexpected from which the logged instance can recover.
    Warn,
    /// Information the user asked for.
    Note,
    /// Information the user did not ask for, such as a plugin starting up.
    Info,
    /// Debugging information for users of the logged instance.
    Debug,
    /// Debugging information for the internals of the logged instance.
    Trace,
}

/// A filter on log levels: the least severe level that passes, or `Off`.
#[derive(Debug, Clone, Copy, PartialEq, Eq, PartialOrd, Structural)]
pub enum LoglevelFilter {
    /// Lets nothing pass.
    Off,
    /// Corresponds to the `Fatal` log level.
    Fatal,
    /// Corresponds to the `Error` log level.
    Error,
    /// Corresponds to the `Warn` log level.
    Warn,
    /// Corresponds to the `Note` log level.
    Note,
    /// Corresponds to the `Info` log level.
    Info,
    /// Corresponds to the `Debug` log level.
    Debug,
    /// Corresponds to the `Trace` log level.
    Trace,
}

/// The number of a level: 1 for `Fatal` up to 7 for `Trace`.
pub open spec fn level_rank(l: Loglevel) -> nat {
    match l {
        Loglevel::Fatal => 1,
        Loglevel::Error => 2,
        Loglevel::Warn => 3,
        Loglevel::Note => 4,
        Loglevel::Info => 5,
        Loglevel::Debug => 6,
        Loglevel::Trace => 7,
    }
}

/// The number of a filter: 0 for `Off`, and otherwise that of its level.
pub open spec fn filter_rank(f: LoglevelFilter) -> nat {
    match f {
        LoglevelFilter::Off => 0,
        LoglevelFilter::Fatal => 1,
        LoglevelFilter::Error => 2,
        LoglevelFilter::Warn => 3,
        LoglevelFilter::Note => 4,
        LoglevelFilter::Info => 5,
        LoglevelFilter::Debug => 6,
        LoglevelFilter::Trace => 7,
    }
}

impl Loglevel {
    /// The level a filter corresponds to; fails for `Off`.
    pub fn try_from(levelfilter: LoglevelFilter) -> (r: Result<Loglevel, ()>)
        ensures
            levelfilter == LoglevelFilter::Off ==> r is Err,
            levelfilter != LoglevelFilter::Off ==> r is Ok && level_rank(r->Ok_0) == filter_rank(
                levelfilter,
            ),
    {
        match levelfilter {
            LoglevelFilter::Fatal => Ok(Loglevel::Fatal),
            LoglevelFilter::Error => Ok(Loglevel::Error),
            LoglevelFilter::Warn => Ok(Loglevel::Warn),
            LoglevelFilter::Note => Ok(Loglevel::Note),
            LoglevelFilter::Info => Ok(Loglevel::Info),
            LoglevelFilter::Debug => Ok(Loglevel::Debug),
            LoglevelFilter::Trace => Ok(Loglevel::Trace),
            LoglevelFilter::Off => Err(()),
        }
    }
}

/// The filter corresponding to a level.
pub open spec fn filter_of(level: Loglevel) -> LoglevelFilter {
    match level {
        Loglevel::Fatal => LoglevelFilter::Fatal,
        Loglevel::Error => LoglevelFilter::Error,
        Loglevel::Warn => LoglevelFilter::Warn,
        Loglevel::Note => LoglevelFilter::Note,
        Loglevel::Info => LoglevelFilter::Info,
        Loglevel::Debug => LoglevelFilter::Debug,
        Loglevel::Trace => LoglevelFilter::Trace,
    }
}

impl From<Loglevel> for LoglevelFilter {
    fn from(level: Loglevel) -> (f: LoglevelFilter) {
        match level {
            Loglevel::Fatal => LoglevelFilter::Fatal,
            Loglevel::Error => LoglevelFilter::Error,
            Loglevel::Warn => LoglevelFilter::Warn,
            Loglevel::Note => LoglevelFilter::Note,
            Loglevel::Info => LoglevelFilter::Info,
            Loglevel::Debug => LoglevelFilter::Debug,
            Loglevel::Trace => LoglevelFilter::Trace,
        }
    }
}

impl vstd::std_specs::convert::FromSpecImpl<Loglevel> for LoglevelFilter {
    open spec fn obeys_from_spec() -> bool {
        true
    }

    open spec fn from_spec(level: Loglevel) -> LoglevelFilter {
        filter_of(level)
    }
}

/// A level and its filter have the same number, and the filter converts
/// back to the level; numbers tell levels and filters apart.
pub proof fn lemma_level_filter_roundtrip(level: Loglevel, other: Loglevel)
    ensures
        filter_rank(filter_of(level)) == level_rank(level),
        filter_of(level) != LoglevelFilter::Off,
        level_rank(level) == level_rank(other) ==> level == other,
{
}

/// The name of a level.
pub open spec fn level_name(l: Loglevel) -> Seq<char> {
    match l {
        Loglevel::Fatal => "Fatal"@,
        Loglevel::Error => "Error"@,
        Loglevel::Warn => "Warn"@,
        Loglevel::Note => "Note"@,
        Loglevel::Info => "Info"@,
        Loglevel::Debug => "Debug"@,
        Loglevel::Trace => "Trace"@,
    }
}

impl Loglevel {
    /// The name of the level.
    pub fn name(&self) -> (s: &'static str)
        ensures
            s@ == level_name(*self),
    {
        match self {
            Loglevel::Fatal => "Fatal",
            Loglevel::Error => "Error",
            Loglevel::Warn => "Warn",
            Loglevel::Note => "Note",
            Loglevel::Info => "Info",
            Loglevel::Debug => "Debug",
            Loglevel::Trace => "Trace",
        }
    }
}

/// A point in time of the system clock, carried through opaquely.
#[verifier::external_type_specification]
#[verifier::external_body]
pub struct ExSystemTime(std::time::SystemTime);

/// Calls std's `SystemTime::now`: the current time of the system clock.
/// Nothing is stated of it.
#[verifier::external_body]
fn system_now() -> SystemTime {
    SystemTime::now()
}

/// Calls std's `SystemTime::duration_since` with the Unix epoch, and keeps
/// the whole seconds of the duration; `None` for a time before the epoch.
/// Nothing is stated of the result, which depends on a clock reading.
#[verifier::external_body]
fn seconds_since_epoch(t: SystemTime) -> Option<u64> {
    match t.duration_since(std::time::UNIX_EPOCH) {
        Ok(d) => Some(d.as_secs()),
        Err(_) => None,
    }
}

/// Calls std's `SystemTime::elapsed` and keeps the duration in whole
/// milliseconds; `None` when the clock now reads an earlier time. Nothing
/// is stated of the result.
#[verifier::external_body]
fn millis_elapsed(t: SystemTime) -> Option<u128> {
    match t.elapsed() {
        Ok(d) => Some(d.as_millis()),
        Err(_) => None,
    }
}

/// The first second of the year 10000, from which humantime formats no
/// time.
pub const RFC3339_LIMIT: u64 = 253402300800u64;

/// What `humantime::format_rfc3339_seconds` writes for the time `secs`
/// seconds after the Unix epoch.
pub uninterp spec fn rfc3339_seconds_text(secs: u64) -> Seq<char>;

/// Calls `humantime::format_rfc3339_seconds` on the time `secs` seconds
/// after the Unix epoch and renders it, such as `2018-02-14T00:28:07Z`.
/// Claims that the text depends on `secs` alone and is twenty characters
/// long; below the year 10000, where humantime fails, it does not panic.
#[verifier::external_body]
fn rfc3339_seconds(secs: u64) -> (s: String)
    requires
        secs < RFC3339_LIMIT,
    ensures
        s@ == rfc3339_seconds_text(secs),
        s@.len() == 20,
{
    let t = std::time::UNIX_EPOCH + std::time::Duration::from_secs(secs);
    humantime::format_rfc3339_seconds(t).to_string()
}

/// The metadata of a log record.
#[derive(Debug)]
pub struct Metadata {
    level: Loglevel,
    source_module: Option<String>,
    file: Option<String>,
    line: Option<u32>,
    timestamp: SystemTime,
    epoch_secs: Option<u64>,
    process: u32,
    thread: u64,
}

/// A log record: a payload with its level, origin and time, and the name
/// of the logger.
#[derive(Debug)]
pub struct LogRecord {
    payload: String,
    metadata: Metadata,
    logger: String,
}

/// A copy of an optional string.
fn clone_opt(s: &Option<String>) -> (r: Option<String>)
    ensures
        opt_view(r) == opt_view(*s),
{
    match s {
        Some(t) => Some(t.clone()),
        None => None,
    }
}

impl Metadata {
    /// A copy of the metadata.
    fn copy(&self) -> (r: Metadata)
        ensures
            r.level == self.level,
            opt_view(r.source_module) == opt_view(self.source_module),
            opt_view(r.file) == opt_view(self.file),
            r.line == self.line,
            r.timestamp == self.timestamp,
            r.epoch_secs == self.epoch_secs,
            r.process == self.process,
            r.thread == self.thread,
    {
        Metadata {
            level: self.level,
            source_module: clone_opt(&self.source_module),
            file: clone_opt(&self.file),
            line: self.line,
            timestamp: self.timestamp,
            epoch_secs: self.epoch_secs,
            process: self.process,
            thread: self.thread,
        }
    }
}

impl Clone for Metadata {
    fn clone(&self) -> Metadata {
        self.copy()
    }
}

impl Clone for LogRecord {
    fn clone(&self) -> (r: LogRecord)
        ensures
            r@ == self@,
            r.time() == self.time(),
    {
        LogRecord {
            payload: self.payload.clone(),
            metadata: self.metadata.copy(),
            logger: self.logger.clone(),
        }
    }
}

/// What a log record holds, but for its time.
pub struct RecordView {
    pub payload: Seq<char>,
    pub level: Loglevel,
    pub source_module: Option<Seq<char>>,
    pub file: Option<Seq<char>>,
    pub line: Option<u32>,
    pub process: u32,
    pub thread: u64,
    pub logger: Seq<char>,
    /// The whole seconds from the Unix epoch to the time of the record;
    /// `None` for a time before the epoch.
    pub seconds: Option<u64>,
}

/// The view of an optional string.
pub open spec fn opt_view(s: Option<String>) -> Option<Seq<char>> {
    match s {
        Some(t) => Some(t@),
        None => None,
    }
}

/// The view of an optional string slice.
pub open spec fn opt_str_view(s: Option<&str>) -> Option<Seq<char>> {
    match s {
        Some(t) => Some(t@),
        None => None,
    }
}

impl View for LogRecord {
    type V = RecordView;

    closed spec fn view(&self) -> RecordView {
        RecordView {
            payload: self.payload@,
            level: self.metadata.level,
            source_module: opt_view(self.metadata.source_module),
            file: opt_view(self.metadata.file),
            line: self.metadata.line,
            process: self.metadata.process,
            thread: self.metadata.thread,
            logger: self.logger@,
            seconds: self.metadata.epoch_secs,
        }
    }
}

/// The line a record is displayed as, given the text of its time and the
/// milliseconds since: the time, `+` and the milliseconds then `ms` in six
/// columns, the level right-aligned in five, then process, thread and
/// logger in thirty-two columns, then the payload.
pub open spec fn record_line(stamp: Seq<char>, millis: nat, r: RecordView) -> Seq<char> {
    stamp + pad_right("+"@ + decimal(millis) + "ms"@, 6) + pad_left(level_name(r.level), 5) + " "@
        + pad_right(
        pad_left(decimal(r.process as nat), 5) + ":"@ + pad_right(decimal(r.thread as nat), 2) + " "@
            + r.logger + " "@,
        32,
    ) + " "@ + r.payload
}

/// The line written to standard error for a record, given the text of its
/// time and the milliseconds since: the time and a space; at `debug`, `+`
/// and the milliseconds then `ms` in six columns; the level right-aligned
/// in five and a space; at `trace`, process, thread and logger in
/// thirty-two columns, else the logger in twenty-five; a space, the payload
/// and a line break.
pub open spec fn stderr_text(
    stamp: Seq<char>,
    millis: nat,
    r: RecordView,
    debug: bool,
    trace: bool,
) -> Seq<char> {
    stamp + " "@ + (if debug {
        pad_right("+"@ + decimal(millis) + "ms"@, 6)
    } else {
        Seq::empty()
    }) + pad_left(level_name(r.level), 5) + " "@ + (if trace {
        pad_right(
            pad_left(decimal(r.process as nat), 5) + ":"@ + pad_right(decimal(r.thread as nat), 2)
                + " "@ + r.logger + " "@,
            32,
        )
    } else {
        pad_right(r.logger, 25)
    }) + " "@ + r.payload + "\n"@
}

/// The message for a record whose time cannot be displayed.
pub open spec fn msg_time_out_of_range() -> Seq<char> {
    "log record time cannot be displayed"@
}

/// The message for a record whose time is later than the clock's time now.
pub open spec fn msg_clock_behind() -> Seq<char> {
    "log record time is later than the clock"@
}

/// Whether a time, in whole seconds from the Unix epoch, can be displayed:
/// not before the epoch and before the year 10000.
pub open spec fn displayable(seconds: Option<u64>) -> bool {
    seconds matches Some(s) && s < RFC3339_LIMIT
}

impl LogRecord {
    /// A record made now by `logger`, of `payload` at `level`, from the
    /// given source location, process and thread.
    pub fn new(
        logger: &str,
        payload: &str,
        level: Loglevel,
        source_module: &str,
        file: &str,
        line: u32,
        process: u32,
        thread: u64,
    ) -> (r: LogRecord)
        ensures
            r@.payload == payload@,
            r@.level == level,
            r@.source_module == Some(source_module@),
            r@.file == Some(file@),
            r@.line == Some(line),
            r@.process == process,
            r@.thread == thread,
            r@.logger == logger@,
    {
        let timestamp = system_now();
        let epoch_secs = seconds_since_epoch(timestamp);
        LogRecord {
            payload: payload.to_string(),
            metadata: Metadata {
                level,
                source_module: Some(source_module.to_string()),
                file: Some(file.to_string()),
                line: Some(line),
                timestamp,
                epoch_secs,
                process,
                thread,
            },
            logger: logger.to_string(),
        }
    }

    /// The payload.
    pub fn payload(&self) -> (r: &str)
        ensures
            r@ == self@.payload,
    {
        self.payload.as_str()
    }

    /// The level.
    pub fn level(&self) -> (r: Loglevel)
        ensures
            r == self@.level,
    {
        self.metadata.level
    }

    /// The module the record comes from, if known.
    pub fn source_module(&self) -> (r: Option<&str>)
        ensures
            opt_str_view(r) == self@.source_module,
    {
        match &self.metadata.source_module {
            Some(s) => Some(s.as_str()),
            None => None,
        }
    }

    /// The source file the record comes from, if known.
    pub fn file(&self) -> (r: Option<&str>)
        ensures
            opt_str_view(r) == self@.file,
    {
        match &self.metadata.file {
            Some(s) => Some(s.as_str()),
            None => None,
        }
    }

    /// The source line the record comes from, if known.
    pub fn line(&self) -> (r: Option<u32>)
        ensures
            r == self@.line,
    {
        self.metadata.line
    }

    /// The time the record was made.
    pub closed spec fn time(self) -> SystemTime {
        self.metadata.timestamp
    }

    /// The time the record was made.
    pub fn timestamp(&self) -> (r: SystemTime)
        ensures
            r == self.time(),
    {
        self.metadata.timestamp
    }

    /// The process the record comes from.
    pub fn process(&self) -> (r: u32)
        ensures
            r == self@.process,
    {
        self.metadata.process
    }

    /// The thread the record comes from.
    pub fn thread(&self) -> (r: u64)
        ensures
            r == self@.thread,
    {
        self.metadata.thread
    }

    /// The name of the logger.
    pub fn logger(&self) -> (r: &str)
        ensures
            r@ == self@.logger,
    {
        self.logger.as_str()
    }

    /// The display line of the record, given the text of its time and the
    /// milliseconds since.
    pub fn format_line(&self, stamp: &str, millis: u128) -> (s: String)
        ensures
            s@ == record_line(stamp@, millis as nat, self@),
    {
        let mut out = str_chars(stamp);
        let mut ms = str_chars("+");
        let mut d = u128_to_decimal(millis);
        ms.append(&mut d);
        push_str(&mut ms, "ms");
        push_padded_right(&mut out, &ms, 6);
        let name = str_chars(self.metadata.level.name());
        push_padded_left(&mut out, &name, 5);
        push_str(&mut out, " ");
        let mut who: Vec<char> = Vec::new();
        let pid = u64_to_decimal(self.metadata.process as u64);
        push_padded_left(&mut who, &pid, 5);
        push_str(&mut who, ":");
        let tid = u64_to_decimal(self.metadata.thread);
        push_padded_right(&mut who, &tid, 2);
        push_str(&mut who, " ");
        push_str(&mut who, self.logger.as_str());
        push_str(&mut who, " ");
        push_padded_right(&mut out, &who, 32);
        push_str(&mut out, " ");
        push_str(&mut out, self.payload.as_str());
        proof {
            assert(ms@ =~= "+"@ + decimal(millis as nat) + "ms"@);
            assert(who@ =~= pad_left(decimal(self@.process as nat), 5) + ":"@ + pad_right(
                decimal(self@.thread as nat),
                2,
            ) + " "@ + self@.logger + " "@);
            assert(out@ =~= record_line(stamp@, millis as nat, self@));
        }
        string_from_chars(&out)
    }

    /// The line written to standard error for the record when it passes
    /// `filter`, given the text of its time and the milliseconds since;
    /// `None` when the record's level is filtered out. The milliseconds are
    /// shown at filter `Debug` and beyond, process and thread at `Trace`.
    pub fn stderr_line(&self, stamp: &str, millis: u128, filter: LoglevelFilter) -> (s: Option<String>)
        ensures
            level_rank(self@.level) > filter_rank(filter) ==> s is None,
            level_rank(self@.level) <= filter_rank(filter) ==> (s matches Some(t) && t@ == stderr_text(
                stamp@,
                millis as nat,
                self@,
                filter_rank(filter) >= 6,
                filter_rank(filter) >= 7,
            )),
    {
        let rank: u8 = match filter {
            LoglevelFilter::Off => 0,
            LoglevelFilter::Fatal => 1,
            LoglevelFilter::Error => 2,
            LoglevelFilter::Warn => 3,
            LoglevelFilter::Note => 4,
            LoglevelFilter::Info => 5,
            LoglevelFilter::Debug => 6,
            LoglevelFilter::Trace => 7,
        };
        let level: u8 = match self.metadata.level {
            Loglevel::Fatal => 1,
            Loglevel::Error => 2,
            Loglevel::Warn => 3,
            Loglevel::Note => 4,
            Loglevel::Info => 5,
            Loglevel::Debug => 6,
            Loglevel::Trace => 7,
        };
        if level > rank {
            return None;
        }
        let debug = rank >= 6;
        let trace = rank >= 7;
        let mut out = str_chars(stamp);
        push_str(&mut out, " ");
        let ghost after_stamp = out@;
        if debug {
            let mut ms = str_chars("+");
            let mut d = u128_to_decimal(millis);
            ms.append(&mut d);
            push_str(&mut ms, "ms");
            assert(ms@ =~= "+"@ + decimal(millis as nat) + "ms"@);
            push_padded_right(&mut out, &ms, 6);
        }
        let ghost after_delay = out@;
        let name = str_chars(self.metadata.level.name());
        push_padded_left(&mut out, &name, 5);
        push_str(&mut out, " ");
        let ghost after_level = out@;
        if trace {
            let mut who: Vec<char> = Vec::new();
            let pid = u64_to_decimal(self.metadata.process as u64);
            push_padded_left(&mut who, &pid, 5);
            push_str(&mut who, ":");
            let tid = u64_to_decimal(self.metadata.thread);
            push_padded_right(&mut who, &tid, 2);
            push_str(&mut who, " ");
            push_str(&mut who, self.logger.as_str());
            push_str(&mut who, " ");
            assert(who@ =~= pad_left(decimal(self@.process as nat), 5) + ":"@ + pad_right(
                decimal(self@.thread as nat),
                2,
            ) + " "@ + self@.logger + " "@);
            push_padded_right(&mut out, &who, 32);
        } else {
            let lg = str_chars(self.logger.as_str());
            push_padded_right(&mut out, &lg, 25);
        }
        push_str(&mut out, " ");
        push_str(&mut out, self.payload.as_str());
        push_str(&mut out, "\n");
        proof {
            assert(out@ =~= stderr_text(stamp@, millis as nat, self@, debug, trace));
        }
        Some(string_from_chars(&out))
    }

    /// The record as a line of text: its time as RFC 3339 in whole seconds,
    /// the milliseconds since, its level, process, thread and logger, and
    /// its payload. Fails when the time cannot be displayed: before the Unix
    /// epoch, from the year 10000 on, or after the clock's time now.
    pub fn to_string(&self) -> (r: crate::error::Result<String>)
        ensures
            !displayable(self@.seconds) ==> r is Err && r->Err_0 is Other && r->Err_0->Other_0@
                == msg_time_out_of_range(),
            displayable(self@.seconds) ==> match r {
                Ok(s) => rfc3339_seconds_text(self@.seconds->0).len() == 20 && exists|millis: u128|
                    s@ == #[trigger] record_line(
                        rfc3339_seconds_text(self@.seconds->0),
                        millis as nat,
                        self@,
                    ),
                Err(e) => e is Other && e->Other_0@ == msg_clock_behind(),
            },
    {
        let secs = match self.metadata.epoch_secs {
            Some(s) => s,
            None => {
                return Err(other_err("log record time cannot be displayed"));
            },
        };
        if secs >= RFC3339_LIMIT {
            return Err(other_err("log record time cannot be displayed"));
        }
        let millis = match millis_elapsed(self.metadata.timestamp) {
            Some(m) => m,
            None => {
                return Err(other_err("log record time is later than the clock"));
            },
        };
        let stamp = rfc3339_seconds(secs);
        let s = self.format_line(stamp.as_str(), millis);
        assert(s@ == record_line(rfc3339_seconds_text(secs), millis as nat, self@));
        Ok(s)
    }
}

} // verus!
