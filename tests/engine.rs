use gilboost::engine::{Config, Engine, EngineError, Lookup, Stats};
use gilboost::processing::{flag_processed, process_task, raise_bytes, Json};
use serde_json::Value;

fn started(capacity: usize, ttl: u64, memory_mb: usize) -> Engine {
    let mut e = Engine::new();
    e.init(Some(2), Some(capacity), Some(ttl), Some(memory_mb));
    e
}

fn json(text: &str) -> Value {
    serde_json::from_str::<Value>(text).unwrap()
}

#[test]
fn operations_before_init_are_refused() {
    let mut e = Engine::new();
    assert_eq!(e.submit(vec![1], None, 0), Err(EngineError::NotInitialized));
    assert_eq!(
        e.get_result("00000000-0000-0000-0000-000000000000"),
        Err(EngineError::NotInitialized)
    );
    assert_eq!(e.get_stats(), Err(EngineError::NotInitialized));
    assert_eq!(e.clear_all(), Err(EngineError::NotInitialized));
}

#[test]
fn default_config_values() {
    let c = Config::default();
    assert_eq!(c.worker_threads, 8);
    assert_eq!(c.queue_capacity, 1000);
    assert_eq!(c.result_ttl_seconds, 3600);
    assert_eq!(c.memory_limit_mb, 1024);
    let d = Config::from_options(Some(3), None, Some(5), None);
    assert_eq!(d.worker_threads, 3);
    assert_eq!(d.queue_capacity, 1000);
    assert_eq!(d.result_ttl_seconds, 5);
    assert_eq!(d.memory_limit_mb, 1024);
}

#[test]
fn init_is_idempotent() {
    let mut e = started(7, 9, 1);
    e.init(Some(1), Some(1), Some(1), Some(1));
    let s = e.get_stats().unwrap();
    assert_eq!(
        s,
        Stats {
            queue_size: 0,
            results_count: 0,
            worker_threads: 2,
            queue_capacity: 7,
            result_ttl_seconds: 9,
            memory_limit_mb: 1,
        }
    );
}

#[test]
fn third_submission_waits_for_a_dequeue() {
    let mut e = started(2, 1, 1024);
    let a = e.submit(b"a".to_vec(), Some(0), 0).unwrap();
    let b = e.submit(b"b".to_vec(), Some(0), 0).unwrap();
    assert_eq!(e.submit(b"c".to_vec(), Some(0), 0), Err(EngineError::QueueFull));
    assert_eq!(e.submit(b"c".to_vec(), Some(0), 0), Err(EngineError::QueueFull));
    assert!(e.claim_next().is_some());
    let c = e.submit(b"c".to_vec(), Some(0), 0).unwrap();
    assert_ne!(c, a);
    assert_ne!(c, b);
    assert_eq!(e.get_stats().unwrap().queue_size, 2);
}

#[test]
fn oversized_payload_is_refused_and_index_unchanged() {
    let mut e = started(10, 60, 0);
    assert!(e.submit(Vec::new(), None, 0).is_ok());
    assert_eq!(e.submit(vec![0u8], None, 0), Err(EngineError::PayloadTooLarge));
    assert_eq!(e.get_stats().unwrap().queue_size, 1);
    let mut f = started(10, 60, 1);
    assert!(f.submit(vec![7u8; 1048576], None, 0).is_ok());
    assert_eq!(f.submit(vec![7u8; 1048577], None, 0), Err(EngineError::PayloadTooLarge));
    assert_eq!(f.get_stats().unwrap().queue_size, 1);
}

#[test]
fn size_is_checked_before_capacity() {
    let mut e = started(0, 60, 0);
    assert_eq!(e.submit(vec![1u8], None, 0), Err(EngineError::PayloadTooLarge));
    assert_eq!(e.submit(Vec::new(), None, 0), Err(EngineError::QueueFull));
}

#[test]
fn structured_payload_is_marked_processed() {
    let out = process_task(br#"{"x": 1}"#);
    let v: Value = serde_json::from_slice(&out).unwrap();
    assert_eq!(v, json(r#"{"x": 1, "processed": true}"#));
}

#[test]
fn json_that_is_no_object_is_reencoded() {
    assert_eq!(process_task(b"[1, 2]"), b"[1,2]".to_vec());
    assert_eq!(process_task(b" 5 "), b"5".to_vec());
}

#[test]
fn raw_payload_bytes_are_raised() {
    assert_eq!(process_task(&[0x00, 0x41, 0xfe, 0xff]), vec![0x01, 0x42, 0xff, 0xff]);
    assert_eq!(raise_bytes(b"ab"), b"bc".to_vec());
    assert_eq!(raise_bytes(&[]), Vec::<u8>::new());
}

#[test]
fn submitted_job_is_pending_then_ready() {
    let mut e = started(10, 60, 1);
    let id = e.submit(br#"{"x": 1}"#.to_vec(), None, 5).unwrap();
    assert_eq!(e.get_result(&id), Ok(Lookup::Pending));
    assert!(e.worker_turn(10));
    match e.get_result(&id) {
        Ok(Lookup::Ready(bytes)) => {
            let v: Value = serde_json::from_slice(&bytes).unwrap();
            assert_eq!(v, json(r#"{"x": 1, "processed": true}"#));
        }
        other => panic!("unexpected {:?}", other),
    }
    assert!(!e.worker_turn(11));
    let s = e.get_stats().unwrap();
    assert_eq!(s.queue_size, 0);
    assert_eq!(s.results_count, 1);
}

#[test]
fn lowest_priority_value_is_dispatched_first() {
    let mut e = started(10, 60, 1);
    e.submit(b"high".to_vec(), Some(5), 0).unwrap();
    e.submit(b"low".to_vec(), Some(-3), 0).unwrap();
    e.submit(b"mid".to_vec(), Some(1), 0).unwrap();
    assert_eq!(e.claim_next().unwrap().data, b"low".to_vec());
    assert_eq!(e.claim_next().unwrap().data, b"mid".to_vec());
    let last = e.claim_next().unwrap();
    assert_eq!(last.data, b"high".to_vec());
    assert_eq!(last.priority, 5);
    assert!(e.claim_next().is_none());
}

#[test]
fn extreme_priorities_are_accepted() {
    let mut e = started(10, 60, 1);
    e.submit(b"min".to_vec(), Some(i32::MIN), 0).unwrap();
    e.submit(b"max".to_vec(), Some(i32::MAX), 0).unwrap();
    assert_eq!(e.claim_next().unwrap().data, b"min".to_vec());
    assert_eq!(e.claim_next().unwrap().data, b"max".to_vec());
}

#[test]
fn result_expires_only_after_ttl_is_exceeded() {
    let mut e = started(10, 1, 1);
    let id = e.submit(b"z".to_vec(), None, 0).unwrap();
    assert!(e.worker_turn(1000));
    e.cleanup_old_results(2000);
    assert_eq!(e.get_result(&id), Ok(Lookup::Ready(b"{".to_vec())));
    e.cleanup_old_results(2001);
    assert_eq!(e.get_result(&id), Err(EngineError::NotFound));
    assert_eq!(e.get_stats().unwrap().results_count, 0);
}

#[test]
fn zero_ttl_drops_results_at_once_after_time_moves() {
    let mut e = started(10, 0, 1);
    let id = e.submit(b"q".to_vec(), None, 0).unwrap();
    assert!(e.worker_turn(50));
    assert_eq!(e.get_result(&id), Ok(Lookup::Ready(b"r".to_vec())));
    e.cleanup_old_results(51);
    assert_eq!(e.get_result(&id), Err(EngineError::NotFound));
}

#[test]
fn clear_all_then_stats_reports_zero() {
    let mut e = started(10, 60, 1);
    e.submit(b"a".to_vec(), None, 0).unwrap();
    e.submit(b"b".to_vec(), None, 0).unwrap();
    assert!(e.worker_turn(1));
    assert_eq!(e.clear_all(), Ok(()));
    let s = e.get_stats().unwrap();
    assert_eq!(s.queue_size, 0);
    assert_eq!(s.results_count, 0);
}

#[test]
fn malformed_identifier_is_invalid() {
    let e = started(10, 60, 1);
    assert_eq!(e.get_result("not-a-job"), Err(EngineError::InvalidId));
    assert_eq!(e.get_result(""), Err(EngineError::InvalidId));
}

#[test]
fn unknown_identifier_is_not_found() {
    let e = started(10, 60, 1);
    assert_eq!(
        e.get_result("67e55044-10b1-426f-9247-bb680e5fe0c8"),
        Err(EngineError::NotFound)
    );
}

#[test]
fn publish_replaces_an_earlier_result() {
    let mut e = started(10, 60, 1);
    e.publish(42, b"one".to_vec(), 1);
    e.publish(7, b"other".to_vec(), 1);
    e.publish(42, b"two".to_vec(), 2);
    assert_eq!(e.lookup(42), Ok(Lookup::Ready(b"two".to_vec())));
    assert_eq!(e.lookup(7), Ok(Lookup::Ready(b"other".to_vec())));
    assert_eq!(e.get_stats().unwrap().results_count, 2);
}

fn is_canonical_id(text: &str) -> bool {
    text.len() == 36
        && text.char_indices().all(|(i, c)| {
            if i == 8 || i == 13 || i == 18 || i == 23 {
                c == '-'
            } else {
                c.is_ascii_digit() || ('a'..='f').contains(&c)
            }
        })
}

#[test]
fn identifiers_are_canonical_text_read_back_in_any_case() {
    let mut e = started(10, 60, 1);
    let id = e.submit(b"a".to_vec(), None, 0).unwrap();
    assert!(is_canonical_id(&id));
    assert_eq!(e.get_result(&id), Ok(Lookup::Pending));
    assert_eq!(e.get_result(&id.to_uppercase()), Ok(Lookup::Pending));
    assert_eq!(e.get_result(&id.replace('-', "")), Ok(Lookup::Pending));
    assert_eq!(e.get_result(&id[1..]), Err(EngineError::InvalidId));
}

#[test]
fn submitted_identifiers_differ() {
    let mut e = started(10, 60, 1);
    let a = e.submit(b"a".to_vec(), None, 0).unwrap();
    let b = e.submit(b"b".to_vec(), None, 0).unwrap();
    assert_ne!(a, b);
    assert_eq!(e.get_result(&a), Ok(Lookup::Pending));
    assert_eq!(e.get_result(&b), Ok(Lookup::Pending));
}

#[test]
fn claimed_job_stays_pending_until_published() {
    let mut e = started(10, 60, 1);
    let id = e.submit(b"w".to_vec(), None, 0).unwrap();
    let job = e.claim_next().unwrap();
    assert_eq!(e.get_result(&id), Ok(Lookup::Pending));
    assert_eq!(e.get_stats().unwrap().queue_size, 0);
    e.publish(job.id, process_task(&job.data), 3);
    assert_eq!(e.get_result(&id), Ok(Lookup::Ready(b"x".to_vec())));
}

#[test]
fn existing_processed_member_is_overwritten() {
    let out = process_task(br#"{"processed": false, "a": [1, {"b": null}], "s": "t"}"#);
    let v: Value = serde_json::from_slice(&out).unwrap();
    assert_eq!(v, json(r#"{"processed": true, "a": [1, {"b": null}], "s": "t"}"#));
}

#[test]
fn numbers_keep_their_text() {
    assert_eq!(process_task(b"1.5"), b"1.5".to_vec());
    assert_eq!(process_task(b"-12"), b"-12".to_vec());
    assert_eq!(process_task(br#"{"n": 18446744073709551615}"#), br#"{"n":18446744073709551615,"processed":true}"#.to_vec());
}

#[test]
fn flag_is_set_only_on_objects() {
    let arr = Json::Array(vec![Json::Null, Json::Bool(false)]);
    assert_eq!(flag_processed(arr), Json::Array(vec![Json::Null, Json::Bool(false)]));
    assert_eq!(flag_processed(Json::Str("x".to_string())), Json::Str("x".to_string()));
    let obj = Json::Object(vec![("a".to_string(), Json::Number("1".to_string()))]);
    assert_eq!(
        flag_processed(obj),
        Json::Object(vec![
            ("a".to_string(), Json::Number("1".to_string())),
            ("processed".to_string(), Json::Bool(true)),
        ])
    );
    let set = Json::Object(vec![
        ("processed".to_string(), Json::Null),
        ("z".to_string(), Json::Null),
    ]);
    assert_eq!(
        flag_processed(set),
        Json::Object(vec![
            ("processed".to_string(), Json::Bool(true)),
            ("z".to_string(), Json::Null),
        ])
    );
}
