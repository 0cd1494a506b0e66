use json_vs_bin::data::{LONG_TEXT_LEN, TABLE_LEN};
use json_vs_bin::text::{filler_text, numbered, push_decimal};
use json_vs_bin::vector_data::{BASE_TIMESTAMP, LOG_COUNT};
use json_vs_bin::{BigData, LogEvent, Metadata, SmallData};
use std::collections::HashSet;

fn long_text() -> String {
    "o".repeat(248)
}

fn check_table(entries: &[(String, u32)], prefix: &str, step: u32) {
    assert_eq!(entries.len(), 100);
    for (i, (key, value)) in entries.iter().enumerate() {
        assert_eq!(key, &format!("{}{}", prefix, i));
        assert_eq!(*value, i as u32 * step);
    }
    let keys: HashSet<&String> = entries.iter().map(|e| &e.0).collect();
    assert_eq!(keys.len(), 100);
}

#[test]
fn big_data_sample_values() {
    let d = BigData::new();
    assert_eq!(d.user_id, 42);
    assert_eq!(d.status_code, 200);
    assert!(d.is_active);
    assert_eq!(d.name, "John Doe");
    assert_eq!(d.retry_count, 3);
    assert_eq!(d.description, long_text());
    assert_eq!(d.priority, 1);
    assert_eq!(d.message, "Processing request");
    assert_eq!(d.sequence_num, 12345);
    assert_eq!(d.session_id, 987654321);
    assert_eq!(d.error_code, 0);
    assert!(d.is_verified);
    assert_eq!(d.title, "Important Task");
    assert_eq!(d.attempt_count, 2);
    assert_eq!(d.content, long_text());
    assert_eq!(d.level, 5);
    assert_eq!(d.details, long_text());
    assert_eq!(d.request_id, 67890);
    assert_eq!(d.timestamp, 1640000000);
    assert_eq!(d.response_code, 201);
    assert!(!d.is_complete);
    assert_eq!(d.summary, "Task in progress");
    assert_eq!(d.max_retries, 10);
    assert_eq!(d.body, long_text());
}

#[test]
fn big_data_tables() {
    let d = BigData::new();
    check_table(&d.properties, "prop_", 1);
    check_table(&d.metadata, "meta_", 2);
    check_table(&d.attributes, "attr_", 3);
    check_table(&d.headers, "header_", 4);
    check_table(&d.tags, "tag_", 5);
    assert_eq!(d.tags[99], ("tag_99".to_string(), 495));
    assert_eq!(d.headers[10], ("header_10".to_string(), 40));
}

#[test]
fn small_data_sample_values() {
    let d = SmallData::new();
    assert_eq!(d.id, 42);
    assert_eq!(d.status, 1);
    assert!(d.enabled);
    assert_eq!(d.name, "Test Item");
    assert_eq!(d.retries, 5);
    assert_eq!(d.description, long_text());
    check_table(&d.config, "cfg_", 1);
    assert_eq!(d.config[0], ("cfg_0".to_string(), 0));
}

#[test]
fn generated_records_are_equal_each_time() {
    assert_eq!(BigData::new(), BigData::new());
    assert_eq!(SmallData::new(), SmallData::new());
}

#[test]
fn decimal_numerals() {
    for (n, text) in [(0u32, "0"), (9, "9"), (10, "10"), (105, "105"), (4294967295, "4294967295")] {
        let mut s = String::from("x");
        push_decimal(&mut s, n);
        assert_eq!(s, format!("x{}", text));
    }
}

#[test]
fn numbered_entries_and_filler() {
    assert_eq!(numbered("k", 0, 7), Vec::<(String, u32)>::new());
    assert_eq!(
        numbered("k", 3, 7),
        vec![("k0".to_string(), 0), ("k1".to_string(), 7), ("k2".to_string(), 14)]
    );
    assert_eq!(filler_text(0), "");
    assert_eq!(filler_text(3), "ooo");
    assert_eq!(LONG_TEXT_LEN, 248);
    assert_eq!(TABLE_LEN, 100);
}

#[test]
fn log_series_values() {
    let logs = LogEvent::series();
    assert_eq!(logs.len(), LOG_COUNT as usize);
    assert_eq!(logs.len(), 200);
    let first = &logs[0];
    assert_eq!(first.timestamp, 1_700_000_000_000_000);
    assert_eq!(first.level, 0);
    assert_eq!(first.component, "auth");
    assert_eq!(first.message, "Request processed successfully");
    assert_eq!(first.trace_id, 1000000);
    assert_eq!(first.span_id, 2000000);
    assert_eq!(first.user_id, 1000);
    let e = &logs[7];
    assert_eq!(e.timestamp, BASE_TIMESTAMP + 35000);
    assert_eq!(e.level, 3);
    assert_eq!(e.component, "db");
    assert_eq!(e.message, "Connection established");
    assert_eq!(e.trace_id, 1000007);
    assert_eq!(e.span_id, 2000014);
    assert_eq!(e.user_id, 0);
    let last = &logs[199];
    assert_eq!(last.component, "db");
    assert_eq!(last.message, "Connection established");
    assert_eq!(last.user_id, 0);
    assert_eq!(logs[198].user_id, 1198);
    assert_eq!(logs[5].component, "worker");
    assert_eq!(logs[2].message, "Cache miss, fetching from database");
    assert_eq!(logs[4].message, "Rate limit exceeded");
}

#[test]
fn batch_metadata_values() {
    let m = Metadata::batch();
    assert_eq!(m.version, 1);
    assert_eq!(m.source, "benchmark-system");
    assert_eq!(m.created_at, BASE_TIMESTAMP);
    assert_eq!(m.batch_id, 1234567890);
    assert!(!m.compression);
    assert_eq!(m.checksum, 0x12345678);
}
