//! Logging as the engine decides it: which messages reach the sink of the
//! host, in what form, and how often an error of one category may be logged.
//! The sink itself belongs to the host; a line that passes is handed back.

use crate::text::{ascii_lowercase, same_text, to_ascii_lowercase};
use vstd::prelude::*;

verus! {

/// Minimum interval between logs of the same error category (in milliseconds).
pub const RATE_LIMIT_INTERVAL_MS: u64 = 1000;

pub const BREADCRUMB_DEVICE: u32 = 0b0000_0001;

pub const BREADCRUMB_FLOW: u32 = 0b0000_0010;

pub const BREADCRUMB_DNS: u32 = 0b0000_0100;

pub const BREADCRUMB_METRICS: u32 = 0b0000_1000;

pub const BREADCRUMB_FFI: u32 = 0b0001_0000;

pub const BREADCRUMB_POLL: u32 = 0b0010_0000;

pub const BREADCRUMB_PACKET: u32 = 0b0100_0000;

pub const BREADCRUMB_ALL: u32 = 0xFFFF_FFFF;

/// A set of breadcrumb categories, one bit each.
#[derive(Clone, Copy, Debug, PartialEq, Eq, Structural)]
pub struct BreadcrumbFlags {
    pub bits: u32,
}

impl BreadcrumbFlags {
    /// Whether the sets share a category.
    pub open spec fn spec_intersects(self, other: BreadcrumbFlags) -> bool {
        self.bits & other.bits != 0
    }

    /// Whether the set holds every category of `other`.
    pub open spec fn spec_contains(self, other: BreadcrumbFlags) -> bool {
        self.bits & other.bits == other.bits
    }

    pub fn empty() -> (r: BreadcrumbFlags)
        ensures
            r.bits == 0,
    {
        BreadcrumbFlags { bits: 0 }
    }

    pub fn from_bits_truncate(bits: u32) -> (r: BreadcrumbFlags)
        ensures
            r.bits == bits,
    {
        BreadcrumbFlags { bits }
    }

    pub fn bits(&self) -> (r: u32)
        ensures
            r == self.bits,
    {
        self.bits
    }

    pub fn is_empty(&self) -> (r: bool)
        ensures
            r == (self.bits == 0),
    {
        self.bits == 0
    }

    pub fn intersects(&self, other: BreadcrumbFlags) -> (r: bool)
        ensures
            r == self.spec_intersects(other),
    {
        self.bits & other.bits != 0
    }

    pub fn contains(&self, other: BreadcrumbFlags) -> (r: bool)
        ensures
            r == self.spec_contains(other),
    {
        self.bits & other.bits == other.bits
    }
}

#[derive(Clone, Copy, Debug, PartialEq, Eq, Structural)]
pub enum LogLevel {
    Error,
    Warn,
    Info,
    Debug,
}

impl LogLevel {
    /// The place of the level from the most to the least severe.
    pub open spec fn rank(self) -> nat {
        match self {
            LogLevel::Error => 0,
            LogLevel::Warn => 1,
            LogLevel::Info => 2,
            LogLevel::Debug => 3,
        }
    }

    /// The level that `value` names in lower case: `info` for any other text.
    pub open spec fn named(value: Seq<char>) -> LogLevel {
        let text = ascii_lowercase(value);
        if text == "error"@ || text == "err"@ {
            LogLevel::Error
        } else if text == "warn"@ || text == "warning"@ {
            LogLevel::Warn
        } else if text == "debug"@ || text == "dbg"@ {
            LogLevel::Debug
        } else {
            LogLevel::Info
        }
    }

    /// The name of the level.
    pub open spec fn name(self) -> Seq<char> {
        match self {
            LogLevel::Error => "error"@,
            LogLevel::Warn => "warn"@,
            LogLevel::Info => "info"@,
            LogLevel::Debug => "debug"@,
        }
    }

    pub fn severity(&self) -> (r: u8)
        ensures
            r == self.rank(),
    {
        match self {
            LogLevel::Error => 0,
            LogLevel::Warn => 1,
            LogLevel::Info => 2,
            LogLevel::Debug => 3,
        }
    }

    pub fn from_str(value: &str) -> (r: LogLevel)
        ensures
            r == LogLevel::named(value@),
    {
        let lower = to_ascii_lowercase(value);
        let text = lower.as_str();
        if same_text(text, "error") || same_text(text, "err") {
            LogLevel::Error
        } else if same_text(text, "warn") || same_text(text, "warning") {
            LogLevel::Warn
        } else if same_text(text, "debug") || same_text(text, "dbg") {
            LogLevel::Debug
        } else {
            LogLevel::Info
        }
    }

    pub fn as_str(self) -> (r: &'static str)
        ensures
            r@ == self.name(),
    {
        match self {
            LogLevel::Error => "error",
            LogLevel::Warn => "warn",
            LogLevel::Info => "info",
            LogLevel::Debug => "debug",
        }
    }
}

/// The label of a set of breadcrumb categories: that of the first of FLOW,
/// DNS, DEVICE, METRICS, FFI and POLL that the set holds, or `LOG`.
pub open spec fn label_text(flags: BreadcrumbFlags) -> Seq<char> {
    if flags.spec_contains(BreadcrumbFlags { bits: BREADCRUMB_FLOW }) {
        "FLOW"@
    } else if flags.spec_contains(BreadcrumbFlags { bits: BREADCRUMB_DNS }) {
        "DNS"@
    } else if flags.spec_contains(BreadcrumbFlags { bits: BREADCRUMB_DEVICE }) {
        "DEVICE"@
    } else if flags.spec_contains(BreadcrumbFlags { bits: BREADCRUMB_METRICS }) {
        "METRICS"@
    } else if flags.spec_contains(BreadcrumbFlags { bits: BREADCRUMB_FFI }) {
        "FFI"@
    } else if flags.spec_contains(BreadcrumbFlags { bits: BREADCRUMB_POLL }) {
        "POLL"@
    } else {
        "LOG"@
    }
}

pub fn label_for(flags: BreadcrumbFlags) -> (r: &'static str)
    ensures
        r@ == label_text(flags),
{
    if flags.contains(BreadcrumbFlags { bits: BREADCRUMB_FLOW }) {
        "FLOW"
    } else if flags.contains(BreadcrumbFlags { bits: BREADCRUMB_DNS }) {
        "DNS"
    } else if flags.contains(BreadcrumbFlags { bits: BREADCRUMB_DEVICE }) {
        "DEVICE"
    } else if flags.contains(BreadcrumbFlags { bits: BREADCRUMB_METRICS }) {
        "METRICS"
    } else if flags.contains(BreadcrumbFlags { bits: BREADCRUMB_FFI }) {
        "FFI"
    } else if flags.contains(BreadcrumbFlags { bits: BREADCRUMB_POLL }) {
        "POLL"
    } else {
        "LOG"
    }
}

/// What the host says of its sink when it installs one.
#[derive(Clone, Copy, Debug, PartialEq, Eq, Structural)]
pub struct LogSinkConfig {
    /// Whether the sink has a callback to take lines.
    pub has_callback: bool,
    pub enabled_breadcrumbs: u32,
}

/// The sink as the engine knows it.
#[derive(Clone, Copy, Debug, PartialEq, Eq, Structural)]
pub struct LogSinkState {
    pub breadcrumbs: BreadcrumbFlags,
    pub min_level: LogLevel,
}

/// A line for the sink of the host.
#[derive(Debug)]
pub struct LogLine {
    pub level: LogLevel,
    pub message: String,
    pub breadcrumbs: u32,
}

/// A line as a mathematical value.
pub ghost struct LogLineView {
    pub level: LogLevel,
    pub message: Seq<char>,
    pub breadcrumbs: u32,
}

impl View for LogLine {
    type V = LogLineView;

    open spec fn view(&self) -> LogLineView {
        LogLineView { level: self.level, message: self.message@, breadcrumbs: self.breadcrumbs }
    }
}

/// The state of logging: the sink, if one is installed, and the prefix of every line.
pub struct LogManager {
    pub sink: Option<LogSinkState>,
    pub prefix: String,
}

/// The text of a line: the prefix, the label of the breadcrumbs in brackets
/// if there are any, and the message.
pub open spec fn formatted(prefix: Seq<char>, breadcrumbs: BreadcrumbFlags, message: Seq<char>) -> Seq<
    char,
> {
    if breadcrumbs.bits != 0 {
        prefix + " ["@ + label_text(breadcrumbs) + "] "@ + message
    } else {
        prefix + " "@ + message
    }
}

/// The line that reaches the sink for a message, if one does: none without
/// a sink; none for a message without breadcrumbs that is less severe than
/// the sink asks for; none for breadcrumbs of which the sink has enabled none.
pub open spec fn dispatched(
    sink: Option<LogSinkState>,
    prefix: Seq<char>,
    level: LogLevel,
    breadcrumbs: BreadcrumbFlags,
    message: Seq<char>,
) -> Option<LogLineView> {
    match sink {
        None => None,
        Some(state) => if level.rank() > state.min_level.rank() && breadcrumbs.bits == 0 {
            None
        } else if breadcrumbs.bits != 0 && !state.breadcrumbs.spec_intersects(breadcrumbs) {
            None
        } else {
            Some(
                LogLineView {
                    level,
                    message: formatted(prefix, breadcrumbs, message),
                    breadcrumbs: breadcrumbs.bits,
                },
            )
        },
    }
}

/// The line for a plain message of `level`: none for an empty message.
pub open spec fn logged(logger: &LogManager, level: LogLevel, message: Seq<char>) -> Option<
    LogLineView,
> {
    if message.len() == 0 {
        None
    } else {
        dispatched(logger.sink, logger.prefix@, level, BreadcrumbFlags { bits: 0 }, message)
    }
}

/// The line for a breadcrumb: none for an empty message or an empty set of categories.
pub open spec fn crumbed(logger: &LogManager, flag: BreadcrumbFlags, message: Seq<char>) -> Option<
    LogLineView,
> {
    if message.len() == 0 || flag.bits == 0 {
        None
    } else {
        dispatched(logger.sink, logger.prefix@, LogLevel::Debug, flag, message)
    }
}

/// Whether an exec result is the line that the specification gives.
pub open spec fn line_matches(line: Option<LogLine>, expected: Option<LogLineView>) -> bool {
    match line {
        Some(l) => expected == Some(l@),
        None => expected is None,
    }
}

impl LogManager {
    /// A logger without a sink.
    pub fn new(prefix: String) -> (r: LogManager)
        ensures
            r.sink is None,
            r.prefix == prefix,
    {
        LogManager { sink: None, prefix }
    }

    /// Installs the sink of the host, or takes it away with `None`. A sink
    /// without a callback is refused; the level is `info` where none is given.
    pub fn install_sink(&mut self, sink: Option<LogSinkConfig>, level: Option<&str>) -> (r: Result<
        (),
        &'static str,
    >)
        ensures
            final(self).prefix == old(self).prefix,
            match sink {
                Some(config) => if config.has_callback {
                    r is Ok && final(self).sink == Some(
                        LogSinkState {
                            breadcrumbs: BreadcrumbFlags { bits: config.enabled_breadcrumbs },
                            min_level: match level {
                                Some(text) => LogLevel::named(text@),
                                None => LogLevel::Info,
                            },
                        },
                    )
                } else {
                    r matches Err(reason) && reason@ == "log callback missing"@ && final(self).sink
                        == old(self).sink
                },
                None => r is Ok && final(self).sink is None,
            },
    {
        match sink {
            Some(config) => {
                if !config.has_callback {
                    return Err("log callback missing");
                }
                let min_level = match level {
                    Some(text) => LogLevel::from_str(text),
                    None => LogLevel::Info,
                };
                self.sink = Some(
                    LogSinkState {
                        breadcrumbs: BreadcrumbFlags::from_bits_truncate(
                            config.enabled_breadcrumbs,
                        ),
                        min_level,
                    },
                );
            },
            None => {
                self.sink = None;
            },
        }
        Ok(())
    }

    /// Sets the breadcrumb categories that the sink takes, if there is a sink.
    pub fn set_breadcrumb_mask(&mut self, mask: u32)
        ensures
            final(self).prefix == old(self).prefix,
            final(self).sink == match old(self).sink {
                Some(state) => Some(
                    LogSinkState { breadcrumbs: BreadcrumbFlags { bits: mask }, ..state },
                ),
                None => None,
            },
    {
        match self.sink {
            Some(state) => {
                self.sink = Some(
                    LogSinkState {
                        breadcrumbs: BreadcrumbFlags::from_bits_truncate(mask),
                        min_level: state.min_level,
                    },
                );
            },
            None => {},
        }
    }

    /// The line for a plain message.
    pub fn log(&self, level: LogLevel, message: &str) -> (r: Option<LogLine>)
        ensures
            line_matches(r, logged(self, level, message@)),
    {
        if message.unicode_len() == 0 {
            return None;
        }
        self.dispatch(level, BreadcrumbFlags::empty(), message)
    }

    /// The line for a breadcrumb.
    pub fn breadcrumb(&self, flag: BreadcrumbFlags, message: &str) -> (r: Option<LogLine>)
        ensures
            line_matches(r, crumbed(self, flag, message@)),
    {
        if message.unicode_len() == 0 || flag.is_empty() {
            return None;
        }
        self.dispatch(LogLevel::Debug, flag, message)
    }

    /// Decides whether a message reaches the sink, and gives its line.
    pub fn dispatch(&self, level: LogLevel, breadcrumbs: BreadcrumbFlags, message: &str) -> (r:
        Option<LogLine>)
        ensures
            line_matches(r, dispatched(self.sink, self.prefix@, level, breadcrumbs, message@)),
    {
        let state = match self.sink {
            Some(state) => state,
            None => {
                return None;
            },
        };
        if level.severity() > state.min_level.severity() && breadcrumbs.is_empty() {
            return None;
        }
        if !breadcrumbs.is_empty() && !state.breadcrumbs.intersects(breadcrumbs) {
            return None;
        }
        let mut text = self.prefix.clone();
        if !breadcrumbs.is_empty() {
            text.append(" [");
            text.append(label_for(breadcrumbs));
            text.append("] ");
        } else {
            text.append(" ");
        }
        text.append(message);
        Some(LogLine { level, message: text, breadcrumbs: breadcrumbs.bits() })
    }
}

/// The line for a warning.
pub fn warn(logger: &LogManager, message: &str) -> (r: Option<LogLine>)
    ensures
        line_matches(r, logged(logger, LogLevel::Warn, message@)),
{
    logger.log(LogLevel::Warn, message)
}

/// The line for an error.
pub fn error(logger: &LogManager, message: &str) -> (r: Option<LogLine>)
    ensures
        line_matches(r, logged(logger, LogLevel::Error, message@)),
{
    logger.log(LogLevel::Error, message)
}

/// The line for a notice.
pub fn info(logger: &LogManager, message: &str) -> (r: Option<LogLine>)
    ensures
        line_matches(r, logged(logger, LogLevel::Info, message@)),
{
    logger.log(LogLevel::Info, message)
}

/// The line for a debug message.
pub fn debug(logger: &LogManager, message: &str) -> (r: Option<LogLine>)
    ensures
        line_matches(r, logged(logger, LogLevel::Debug, message@)),
{
    logger.log(LogLevel::Debug, message)
}

/// The line for a breadcrumb.
pub fn breadcrumb(logger: &LogManager, flag: BreadcrumbFlags, message: &str) -> (r: Option<LogLine>)
    ensures
        line_matches(r, crumbed(logger, flag, message@)),
{
    logger.breadcrumb(flag, message)
}

/// Sets the breadcrumb categories that the sink takes.
pub fn set_breadcrumb_mask(logger: &mut LogManager, mask: u32)
    ensures
        final(logger).prefix == old(logger).prefix,
        final(logger).sink == match old(logger).sink {
            Some(state) => Some(
                LogSinkState { breadcrumbs: BreadcrumbFlags { bits: mask }, ..state },
            ),
            None => None,
        },
{
    logger.set_breadcrumb_mask(mask);
}

/// Error categories for rate-limited logging.
/// Each category has independent rate limiting.
#[derive(Clone, Copy, Debug, PartialEq, Eq, Structural)]
pub enum ErrorCategory {
    /// Invalid IP packet structure (version, header length, etc.)
    PacketInvalidIp,
    /// Invalid TCP packet structure
    PacketInvalidTcp,
    /// Invalid UDP packet structure
    PacketInvalidUdp,
    /// Memory budget exhausted
    MemoryExhausted,
    /// FFI/callback errors
    CallbackError,
    /// Socket operation failures
    SocketError,
}

impl ErrorCategory {
    pub open spec fn spec_index(self) -> int {
        match self {
            ErrorCategory::PacketInvalidIp => 0,
            ErrorCategory::PacketInvalidTcp => 1,
            ErrorCategory::PacketInvalidUdp => 2,
            ErrorCategory::MemoryExhausted => 3,
            ErrorCategory::CallbackError => 4,
            ErrorCategory::SocketError => 5,
        }
    }

    pub open spec fn label_text(self) -> Seq<char> {
        match self {
            ErrorCategory::PacketInvalidIp => "INVALID_IP"@,
            ErrorCategory::PacketInvalidTcp => "INVALID_TCP"@,
            ErrorCategory::PacketInvalidUdp => "INVALID_UDP"@,
            ErrorCategory::MemoryExhausted => "MEMORY_EXHAUSTED"@,
            ErrorCategory::CallbackError => "CALLBACK_ERROR"@,
            ErrorCategory::SocketError => "SOCKET_ERROR"@,
        }
    }

    pub fn index(self) -> (r: usize)
        ensures
            r == self.spec_index(),
    {
        match self {
            ErrorCategory::PacketInvalidIp => 0,
            ErrorCategory::PacketInvalidTcp => 1,
            ErrorCategory::PacketInvalidUdp => 2,
            ErrorCategory::MemoryExhausted => 3,
            ErrorCategory::CallbackError => 4,
            ErrorCategory::SocketError => 5,
        }
    }

    pub fn label(self) -> (r: &'static str)
        ensures
            r@ == self.label_text(),
    {
        match self {
            ErrorCategory::PacketInvalidIp => "INVALID_IP",
            ErrorCategory::PacketInvalidTcp => "INVALID_TCP",
            ErrorCategory::PacketInvalidUdp => "INVALID_UDP",
            ErrorCategory::MemoryExhausted => "MEMORY_EXHAUSTED",
            ErrorCategory::CallbackError => "CALLBACK_ERROR",
            ErrorCategory::SocketError => "SOCKET_ERROR",
        }
    }
}

/// Rate limiter state for error logging: the last log time (unix millis)
/// for each error category.
pub struct RateLimitedLogger {
    last_log_times: Vec<u64>,
}

/// Whether a second has passed at `now_ms` since an error was last logged at `last`.
pub open spec fn rate_allows(last: u64, now_ms: u64) -> bool {
    now_ms >= last && now_ms - last >= RATE_LIMIT_INTERVAL_MS
}

impl RateLimitedLogger {
    /// The times at which an error of each category was last logged.
    pub closed spec fn last_times(&self) -> Seq<u64> {
        self.last_log_times@
    }

    pub closed spec fn wf(&self) -> bool {
        self.last_log_times@.len() == 6
    }

    pub fn new() -> (r: RateLimitedLogger)
        ensures
            r.wf(),
            r.last_times() == Seq::new(6, |i: int| 0u64),
    {
        let mut times: Vec<u64> = Vec::new();
        let mut i: usize = 0;
        while i < 6
            invariant
                i <= 6,
                times@ =~= Seq::new(i as nat, |k: int| 0u64),
            decreases 6 - i,
        {
            times.push(0);
            i = i + 1;
        }
        RateLimitedLogger { last_log_times: times }
    }

    /// Gives the text to log for an error of `category` at `now_ms`, if a
    /// second has passed since the last one of the category: the label of
    /// the category in brackets and the message.
    pub fn try_log(&mut self, category: ErrorCategory, message: &str, now_ms: u64) -> (r: Option<
        String,
    >)
        requires
            old(self).wf(),
        ensures
            final(self).wf(),
            match r {
                Some(text) => rate_allows(old(self).last_times()[category.spec_index()], now_ms)
                    && text@ == "["@ + category.label_text() + "] "@ + message@
                    && final(self).last_times() == old(self).last_times().update(
                    category.spec_index(),
                    now_ms,
                ),
                None => !rate_allows(old(self).last_times()[category.spec_index()], now_ms)
                    && final(self).last_times() == old(self).last_times(),
            },
    {
        let idx = category.index();
        let last = self.last_log_times[idx];
        if now_ms < last || now_ms - last < RATE_LIMIT_INTERVAL_MS {
            return None;
        }
        self.last_log_times.set(idx, now_ms);
        let mut text = String::from_str("[");
        text.append(category.label());
        text.append("] ");
        text.append(message);
        Some(text)
    }
}

/// Log an error with rate limiting to prevent log flooding: only one log
/// per category per second passes. Says whether the error passed, and gives
/// the warning for the sink, if one reaches it.
pub fn rate_limited_error(
    limiter: &mut RateLimitedLogger,
    logger: &LogManager,
    category: ErrorCategory,
    message: &str,
    now_ms: u64,
) -> (r: (bool, Option<LogLine>))
    requires
        old(limiter).wf(),
    ensures
        final(limiter).wf(),
        r.0 == rate_allows(old(limiter).last_times()[category.spec_index()], now_ms),
        final(limiter).last_times() == if r.0 {
            old(limiter).last_times().update(category.spec_index(), now_ms)
        } else {
            old(limiter).last_times()
        },
        line_matches(
            r.1,
            if r.0 {
                logged(logger, LogLevel::Warn, "["@ + category.label_text() + "] "@ + message@)
            } else {
                None
            },
        ),
{
    match limiter.try_log(category, message, now_ms) {
        Some(text) => (true, warn(logger, text.as_str())),
        None => (false, None),
    }
}

} // verus!
