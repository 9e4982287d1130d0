//! Structured log entries: what each system event logs. Writing an entry out
//! is left to the caller.

use vstd::prelude::*;

use crate::clock::{utc_now_rfc3339, utc_rfc3339_shaped};
use crate::config::{InstrumentType, Mode};
use crate::text::{str_equal, string_of};

verus! {

/// Event types for structured logging.
#[derive(Debug, Clone, Copy, PartialEq, Eq, Structural)]
pub enum EventType {
    /// System startup
    SystemStart,
    /// System shutdown
    SystemShutdown,
    /// Market data snapshot
    MarketSnapshot,
    /// Trading decision
    Decision,
    /// Order event (place/cancel/replace)
    OrderEvent,
    /// Fill event
    FillEvent,
    /// Performance metrics update
    MetricsUpdate,
    /// Error event
    Error,
    /// Warning event
    Warning,
    /// Info event
    Info,
}

impl EventType {
    /// The upper-case name written to the log.
    pub open spec fn name(self) -> Seq<char> {
        match self {
            EventType::SystemStart => "SYSTEM_START"@,
            EventType::SystemShutdown => "SYSTEM_SHUTDOWN"@,
            EventType::MarketSnapshot => "MARKET_SNAPSHOT"@,
            EventType::Decision => "DECISION"@,
            EventType::OrderEvent => "ORDER_EVENT"@,
            EventType::FillEvent => "FILL_EVENT"@,
            EventType::MetricsUpdate => "METRICS_UPDATE"@,
            EventType::Error => "ERROR"@,
            EventType::Warning => "WARNING"@,
            EventType::Info => "INFO"@,
        }
    }

    /// The upper-case name written to the log.
    pub fn as_str(&self) -> (r: &'static str)
        ensures
            r@ == self.name(),
    {
        match self {
            EventType::SystemStart => "SYSTEM_START",
            EventType::SystemShutdown => "SYSTEM_SHUTDOWN",
            EventType::MarketSnapshot => "MARKET_SNAPSHOT",
            EventType::Decision => "DECISION",
            EventType::OrderEvent => "ORDER_EVENT",
            EventType::FillEvent => "FILL_EVENT",
            EventType::MetricsUpdate => "METRICS_UPDATE",
            EventType::Error => "ERROR",
            EventType::Warning => "WARNING",
            EventType::Info => "INFO",
        }
    }
}

/// A value attached to a log entry.
#[derive(Debug, Clone)]
pub enum LogValue {
    Text(String),
    Flag(bool),
    Count(u64),
    TextList(Vec<String>),
}

/// A structured log entry.
#[derive(Debug, Clone)]
pub struct LogEntry {
    pub timestamp: String,
    pub event_type: EventType,
    pub message: String,
    /// Named values, each name once.
    pub data: Vec<(String, LogValue)>,
}

/// The value is the text `t`.
pub open spec fn is_text(v: LogValue, t: Seq<char>) -> bool {
    v matches LogValue::Text(s) && s@ == t
}

/// `i` is the position of the value named `key`.
pub open spec fn at_key(data: Seq<(String, LogValue)>, i: int, key: Seq<char>) -> bool {
    0 <= i < data.len() && data[i].0@ == key
}

/// No name occurs twice.
pub open spec fn keys_unique(data: Seq<(String, LogValue)>) -> bool {
    forall|i: int, j: int| #![trigger data[i], data[j]] 0 <= i < j < data.len() ==> data[i].0@ != data[j].0@
}

impl LogEntry {
    /// An entry with no values, timestamped with the clock in UTC RFC 3339.
    pub fn new(event_type: EventType, message: String) -> (r: LogEntry)
        ensures
            utc_rfc3339_shaped(r.timestamp@),
            r.event_type == event_type,
            r.message == message,
            r.data@.len() == 0,
    {
        LogEntry { timestamp: utc_now_rfc3339(), event_type, message, data: Vec::new() }
    }

    /// The entry with the value named `key` set: replaced where the name is
    /// present, appended otherwise.
    pub fn with_data(self, key: &str, value: LogValue) -> (r: LogEntry)
        requires
            keys_unique(self.data@),
        ensures
            keys_unique(r.data@),
            r.timestamp == self.timestamp,
            r.event_type == self.event_type,
            r.message == self.message,
            forall|i: int|
                #[trigger] at_key(self.data@, i, key@) ==> r.data@.len() == self.data@.len()
                    && r.data@[i].0@ == key@ && r.data@[i].1 == value && forall|j: int|
                    0 <= j < self.data@.len() && j != i ==> r.data@[j] == self.data@[j],
            (forall|i: int| !#[trigger] at_key(self.data@, i, key@)) ==> r.data@.len()
                == self.data@.len() + 1 && r.data@.last().0@ == key@ && r.data@.last().1 == value
                && r.data@.drop_last() == self.data@,
    {
        let mut entry = self;
        let mut i: usize = 0;
        while i < entry.data.len()
            invariant
                i <= entry.data@.len(),
                entry.data@ == self.data@,
                entry.timestamp == self.timestamp,
                entry.event_type == self.event_type,
                entry.message == self.message,
                keys_unique(self.data@),
                forall|j: int| 0 <= j < i ==> !at_key(self.data@, j, key@),
            decreases entry.data@.len() - i,
        {
            if str_equal(entry.data[i].0.as_str(), key) {
                let name = string_of(key);
                entry.data.set(i, (name, value));
                proof {
                    assert(at_key(self.data@, i as int, key@));
                    assert forall|a: int| #[trigger] at_key(self.data@, a, key@) implies a == i by {
                        if a != i {
                            if a < i {
                                assert(self.data@[a].0@ != self.data@[i as int].0@);
                            } else {
                                assert(self.data@[i as int].0@ != self.data@[a].0@);
                            }
                        }
                    }
                    assert forall|a: int, b: int|
                        #![trigger entry.data@[a], entry.data@[b]]
                        0 <= a < b < entry.data@.len() implies entry.data@[a].0@ != entry.data@[b].0@ by {
                        assert(self.data@[a].0@ != self.data@[b].0@);
                    }
                }
                return entry;
            }
            i = i + 1;
        }
        let name = string_of(key);
        entry.data.push((name, value));
        assert forall|a: int, b: int|
            #![trigger entry.data@[a], entry.data@[b]]
            0 <= a < b < entry.data@.len() implies entry.data@[a].0@ != entry.data@[b].0@ by {
            if b < self.data@.len() {
                assert(self.data@[a].0@ != self.data@[b].0@);
            } else {
                assert(!at_key(self.data@, a, key@));
            }
        }
        entry
    }
}

/// The message `a + b + c`.
fn join3(a: &str, b: &str, c: &str) -> (r: String)
    ensures
        r@ == a@ + b@ + c@,
{
    let mut s = string_of(a);
    s.append(b);
    s.append(c);
    s
}

/// The entry for a system start: the mode, instrument, symbols, run time and
/// whether the test network is used.
pub fn log_system_start(
    mode: Mode,
    instrument: InstrumentType,
    symbols: &Vec<String>,
    run_seconds: u64,
    testnet: bool,
) -> (r: LogEntry)
    ensures
        utc_rfc3339_shaped(r.timestamp@),
        r.event_type == EventType::SystemStart,
        r.message@ == "Algorithmic trading system starting"@,
        r.data@.len() == 5,
        r.data@[0].0@ == "mode"@ && is_text(r.data@[0].1, mode.name()),
        r.data@[1].0@ == "instrument"@ && is_text(r.data@[1].1, instrument.name()),
        r.data@[2].0@ == "symbols"@ && (r.data@[2].1 matches LogValue::TextList(l) && l@ == symbols@),
        r.data@[3].0@ == "run_seconds"@ && r.data@[3].1 == LogValue::Count(run_seconds),
        r.data@[4].0@ == "testnet"@ && r.data@[4].1 == LogValue::Flag(testnet),
{
    let mut data: Vec<(String, LogValue)> = Vec::new();
    data.push((string_of("mode"), LogValue::Text(string_of(mode.as_str()))));
    data.push((string_of("instrument"), LogValue::Text(string_of(instrument.as_str()))));
    data.push((string_of("symbols"), LogValue::TextList(symbols.clone())));
    data.push((string_of("run_seconds"), LogValue::Count(run_seconds)));
    data.push((string_of("testnet"), LogValue::Flag(testnet)));
    let entry = LogEntry::new(
        EventType::SystemStart,
        string_of("Algorithmic trading system starting"),
    );
    LogEntry { data, ..entry }
}

/// The entry for a shutdown: `System shutdown: <reason>`, with the reason and
/// whether the shutdown was graceful.
pub fn log_system_shutdown(reason: &str, graceful: bool) -> (r: LogEntry)
    ensures
        utc_rfc3339_shaped(r.timestamp@),
        r.event_type == EventType::SystemShutdown,
        r.message@ == "System shutdown: "@ + reason@,
        r.data@.len() == 2,
        r.data@[0].0@ == "reason"@ && is_text(r.data@[0].1, reason@),
        r.data@[1].0@ == "graceful"@ && r.data@[1].1 == LogValue::Flag(graceful),
{
    let mut data: Vec<(String, LogValue)> = Vec::new();
    data.push((string_of("reason"), LogValue::Text(string_of(reason))));
    data.push((string_of("graceful"), LogValue::Flag(graceful)));
    let entry = LogEntry::new(EventType::SystemShutdown, join3("System shutdown: ", reason, ""));
    assert(("System shutdown: "@ + reason@ + ""@) =~= ("System shutdown: "@ + reason@)) by {
        reveal_strlit("");
    }
    LogEntry { data, ..entry }
}

/// The entry for an error: `Error in <context>: <error>`, with both texts.
pub fn log_error(context: &str, error: &str) -> (r: LogEntry)
    ensures
        utc_rfc3339_shaped(r.timestamp@),
        r.event_type == EventType::Error,
        r.message@ == "Error in "@ + context@ + ": "@ + error@,
        r.data@.len() == 2,
        r.data@[0].0@ == "context"@ && is_text(r.data@[0].1, context@),
        r.data@[1].0@ == "error"@ && is_text(r.data@[1].1, error@),
{
    let mut message = join3("Error in ", context, ": ");
    message.append(error);
    let mut data: Vec<(String, LogValue)> = Vec::new();
    data.push((string_of("context"), LogValue::Text(string_of(context))));
    data.push((string_of("error"), LogValue::Text(string_of(error))));
    let entry = LogEntry::new(EventType::Error, message);
    LogEntry { data, ..entry }
}

/// The entry for a warning: `Warning in <context>: <message>`, with both
/// texts.
pub fn log_warning(context: &str, message: &str) -> (r: LogEntry)
    ensures
        utc_rfc3339_shaped(r.timestamp@),
        r.event_type == EventType::Warning,
        r.message@ == "Warning in "@ + context@ + ": "@ + message@,
        r.data@.len() == 2,
        r.data@[0].0@ == "context"@ && is_text(r.data@[0].1, context@),
        r.data@[1].0@ == "warning"@ && is_text(r.data@[1].1, message@),
{
    let mut text = join3("Warning in ", context, ": ");
    text.append(message);
    let mut data: Vec<(String, LogValue)> = Vec::new();
    data.push((string_of("context"), LogValue::Text(string_of(context))));
    data.push((string_of("warning"), LogValue::Text(string_of(message))));
    let entry = LogEntry::new(EventType::Warning, text);
    LogEntry { data, ..entry }
}

/// The entry for information: `<context>: <message>`, with both texts.
pub fn log_info(context: &str, message: &str) -> (r: LogEntry)
    ensures
        utc_rfc3339_shaped(r.timestamp@),
        r.event_type == EventType::Info,
        r.message@ == context@ + ": "@ + message@,
        r.data@.len() == 2,
        r.data@[0].0@ == "context"@ && is_text(r.data@[0].1, context@),
        r.data@[1].0@ == "message"@ && is_text(r.data@[1].1, message@),
{
    let text = join3(context, ": ", message);
    let mut data: Vec<(String, LogValue)> = Vec::new();
    data.push((string_of("context"), LogValue::Text(string_of(context))));
    data.push((string_of("message"), LogValue::Text(string_of(message))));
    let entry = LogEntry::new(EventType::Info, text);
    LogEntry { data, ..entry }
}

} // verus!
