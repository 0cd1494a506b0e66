//! Flat record shapes: scalars, short strings, long filler strings and
//! named numeric tables.
use vstd::prelude::*;
use crate::text::{entries_view, filler, filler_text, numbered, numbered_entries};

verus! {

/// Number of characters in the long filler strings of the records.
pub const LONG_TEXT_LEN: usize = 248;

/// Number of entries in each named table of the records.
pub const TABLE_LEN: u32 = 100;

/// A large flat record with five named tables.
///
/// Each table is a list of `(name, value)` entries in insertion order. The
/// tables that `new` builds have pairwise distinct names
/// (`text::lemma_numbered_keys_distinct`).
#[derive(Clone, Debug, PartialEq)]
pub struct BigData {
    pub user_id: u64,
    pub status_code: u8,
    pub is_active: bool,
    pub name: String,
    pub retry_count: u8,
    pub description: String,
    pub properties: Vec<(String, u32)>,
    pub priority: u8,
    pub message: String,
    pub sequence_num: u32,
    pub metadata: Vec<(String, u32)>,
    pub session_id: u64,
    pub error_code: u8,
    pub is_verified: bool,
    pub title: String,
    pub attempt_count: u8,
    pub content: String,
    pub attributes: Vec<(String, u32)>,
    pub level: u8,
    pub details: String,
    pub request_id: u32,
    pub headers: Vec<(String, u32)>,
    pub timestamp: u64,
    pub response_code: u8,
    pub is_complete: bool,
    pub summary: String,
    pub max_retries: u8,
    pub body: String,
    pub tags: Vec<(String, u32)>,
}

/// A small flat record with one named table.
#[derive(Clone, Debug, PartialEq)]
pub struct SmallData {
    pub id: u64,
    pub status: u8,
    pub enabled: bool,
    pub name: String,
    pub retries: u8,
    pub description: String,
    pub config: Vec<(String, u32)>,
}

impl BigData {
    /// The sample big record: fixed scalars and strings, and tables
    /// `prop_i -> i`, `meta_i -> 2i`, `attr_i -> 3i`, `header_i -> 4i`,
    /// `tag_i -> 5i` for `i` in `0..100`.
    pub fn new() -> (r: BigData)
        ensures
            r.user_id == 42,
            r.status_code == 200,
            r.is_active,
            r.name@ == "John Doe"@,
            r.retry_count == 3,
            r.description@ == filler(LONG_TEXT_LEN as nat),
            entries_view(r.properties@) == numbered_entries("prop_"@, TABLE_LEN as nat, 1),
            r.priority == 1,
            r.message@ == "Processing request"@,
            r.sequence_num == 12345,
            entries_view(r.metadata@) == numbered_entries("meta_"@, TABLE_LEN as nat, 2),
            r.session_id == 987654321,
            r.error_code == 0,
            r.is_verified,
            r.title@ == "Important Task"@,
            r.attempt_count == 2,
            r.content@ == filler(LONG_TEXT_LEN as nat),
            entries_view(r.attributes@) == numbered_entries("attr_"@, TABLE_LEN as nat, 3),
            r.level == 5,
            r.details@ == filler(LONG_TEXT_LEN as nat),
            r.request_id == 67890,
            entries_view(r.headers@) == numbered_entries("header_"@, TABLE_LEN as nat, 4),
            r.timestamp == 1640000000,
            r.response_code == 201,
            !r.is_complete,
            r.summary@ == "Task in progress"@,
            r.max_retries == 10,
            r.body@ == filler(LONG_TEXT_LEN as nat),
            entries_view(r.tags@) == numbered_entries("tag_"@, TABLE_LEN as nat, 5),
    {
        BigData {
            user_id: 42,
            status_code: 200,
            is_active: true,
            name: String::from_str("John Doe"),
            retry_count: 3,
            description: filler_text(LONG_TEXT_LEN),
            properties: numbered("prop_", TABLE_LEN, 1),
            priority: 1,
            message: String::from_str("Processing request"),
            sequence_num: 12345,
            metadata: numbered("meta_", TABLE_LEN, 2),
            session_id: 987654321,
            error_code: 0,
            is_verified: true,
            title: String::from_str("Important Task"),
            attempt_count: 2,
            content: filler_text(LONG_TEXT_LEN),
            attributes: numbered("attr_", TABLE_LEN, 3),
            level: 5,
            details: filler_text(LONG_TEXT_LEN),
            request_id: 67890,
            headers: numbered("header_", TABLE_LEN, 4),
            timestamp: 1640000000,
            response_code: 201,
            is_complete: false,
            summary: String::from_str("Task in progress"),
            max_retries: 10,
            body: filler_text(LONG_TEXT_LEN),
            tags: numbered("tag_", TABLE_LEN, 5),
        }
    }
}

impl SmallData {
    /// The sample small record: fixed scalars and strings, and the table
    /// `cfg_i -> i` for `i` in `0..100`.
    pub fn new() -> (r: SmallData)
        ensures
            r.id == 42,
            r.status == 1,
            r.enabled,
            r.name@ == "Test Item"@,
            r.retries == 5,
            r.description@ == filler(LONG_TEXT_LEN as nat),
            entries_view(r.config@) == numbered_entries("cfg_"@, TABLE_LEN as nat, 1),
    {
        SmallData {
            id: 42,
            status: 1,
            enabled: true,
            name: String::from_str("Test Item"),
            retries: 5,
            description: filler_text(LONG_TEXT_LEN),
            config: numbered("cfg_", TABLE_LEN, 1),
        }
    }
}

} // verus!
