//! Float-free parts of the vector record shapes: log events and batch
//! metadata, with their generators.
use vstd::prelude::*;

verus! {

/// Timestamp (microseconds) that every generated series starts from.
pub const BASE_TIMESTAMP: u64 = 1_700_000_000_000_000;

/// Number of events in the generated log series.
pub const LOG_COUNT: u32 = 200;

/// One structured log line.
#[derive(Clone, Debug, PartialEq)]
pub struct LogEvent {
    pub timestamp: u64,
    pub level: u8,
    pub component: String,
    pub message: String,
    pub trace_id: u64,
    pub span_id: u64,
    pub user_id: u32,
}

/// Description of a batch of records.
#[derive(Clone, Debug, PartialEq)]
pub struct Metadata {
    pub version: u16,
    pub source: String,
    pub created_at: u64,
    pub batch_id: u64,
    pub compression: bool,
    pub checksum: u32,
}

/// The component named by the `k`-th log event, cycling through six names.
pub open spec fn component_name(k: nat) -> Seq<char> {
    let c = k % 6;
    if c == 0 {
        "auth"@
    } else if c == 1 {
        "db"@
    } else if c == 2 {
        "api"@
    } else if c == 3 {
        "cache"@
    } else if c == 4 {
        "queue"@
    } else {
        "worker"@
    }
}

/// The text of the `k`-th log event, cycling through six messages.
pub open spec fn log_text(k: nat) -> Seq<char> {
    let c = k % 6;
    if c == 0 {
        "Request processed successfully"@
    } else if c == 1 {
        "Connection established"@
    } else if c == 2 {
        "Cache miss, fetching from database"@
    } else if c == 3 {
        "Task queued for processing"@
    } else if c == 4 {
        "Rate limit exceeded"@
    } else {
        "Transaction committed"@
    }
}

/// `e` is the `k`-th event of the generated log series.
pub open spec fn is_series_event(e: LogEvent, k: nat) -> bool {
    &&& e.timestamp == BASE_TIMESTAMP + k * 5000
    &&& e.level == k % 4
    &&& e.component@ == component_name(k)
    &&& e.message@ == log_text(k)
    &&& e.trace_id == 1000000 + k
    &&& e.span_id == 2000000 + k * 2
    &&& e.user_id == (if k % 3 == 0 { 1000 + k } else { 0 })
}

fn component_of(k: u32) -> (r: &'static str)
    ensures
        r@ == component_name(k as nat),
{
    match k % 6 {
        0 => "auth",
        1 => "db",
        2 => "api",
        3 => "cache",
        4 => "queue",
        _ => "worker",
    }
}

fn text_of(k: u32) -> (r: &'static str)
    ensures
        r@ == log_text(k as nat),
{
    match k % 6 {
        0 => "Request processed successfully",
        1 => "Connection established",
        2 => "Cache miss, fetching from database",
        3 => "Task queued for processing",
        4 => "Rate limit exceeded",
        _ => "Transaction committed",
    }
}

impl LogEvent {
    /// The `k`-th event of the generated log series.
    pub fn series_event(k: u32) -> (r: LogEvent)
        requires
            k < LOG_COUNT,
        ensures
            is_series_event(r, k as nat),
    {
        LogEvent {
            timestamp: BASE_TIMESTAMP + k as u64 * 5000,
            level: (k % 4) as u8,
            component: String::from_str(component_of(k)),
            message: String::from_str(text_of(k)),
            trace_id: 1000000 + k as u64,
            span_id: 2000000 + k as u64 * 2,
            user_id: if k % 3 == 0 { 1000 + k } else { 0 },
        }
    }

    /// The generated log series: its `k`-th event for each `k` in `0..200`.
    pub fn series() -> (r: Vec<LogEvent>)
        ensures
            r@.len() == LOG_COUNT,
            forall|k: int| 0 <= k < LOG_COUNT ==> is_series_event(#[trigger] r@[k], k as nat),
    {
        let mut r: Vec<LogEvent> = Vec::new();
        let mut k: u32 = 0;
        while k < LOG_COUNT
            invariant
                k <= LOG_COUNT,
                r@.len() == k,
                forall|j: int| 0 <= j < k ==> is_series_event(#[trigger] r@[j], j as nat),
            decreases LOG_COUNT - k,
        {
            r.push(LogEvent::series_event(k));
            k = k + 1;
        }
        r
    }
}

impl Metadata {
    /// The metadata of the generated batch.
    pub fn batch() -> (r: Metadata)
        ensures
            r.version == 1,
            r.source@ == "benchmark-system"@,
            r.created_at == BASE_TIMESTAMP,
            r.batch_id == 1234567890,
            !r.compression,
            r.checksum == 0x12345678,
    {
        Metadata {
            version: 1,
            source: String::from_str("benchmark-system"),
            created_at: BASE_TIMESTAMP,
            batch_id: 1234567890,
            compression: false,
            checksum: 0x12345678,
        }
    }
}

} // verus!
