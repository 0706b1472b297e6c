use stream_recorder::errors::{AppError, ErrorMetrics};
use stream_recorder::monitoring::{
    gc_due, should_log, ConnectionTracker, LogLevel, LogModule, MetricsStore,
};

#[test]
fn error_describe_and_status_codes() {
    let e = AppError::NotFound("r9".to_string());
    assert_eq!(e.describe(), "Not found: r9");
    assert_eq!(e.status_code(), 404);
    assert_eq!(AppError::Unauthorized("x".to_string()).status_code(), 401);
    assert_eq!(AppError::ResourceExhausted("x".to_string()).status_code(), 429);
    assert_eq!(AppError::TooManyConnections("x".to_string()).status_code(), 503);
    assert_eq!(AppError::StorageError("x".to_string()).status_code(), 500);
    assert_eq!(AppError::StreamingError("x".to_string()).status_code(), 500);
    assert_eq!(AppError::InternalError("x".to_string()).status_code(), 500);
    assert_eq!(AppError::JwtError("x".to_string()).status_code(), 401);
    assert_eq!(AppError::ServiceUnavailable("x".to_string()).status_code(), 503);
    assert_eq!(
        AppError::ServiceUnavailable("storage".to_string()).describe(),
        "Service unavailable: storage"
    );
}

#[test]
fn error_metrics_count_by_category() {
    let mut m = ErrorMetrics::new();
    m.record(&AppError::StreamingError("s".to_string()));
    m.record(&AppError::StorageError("t".to_string()));
    m.record(&AppError::NotFound("n".to_string()));
    let snap = m.get_current();
    assert_eq!(snap.total_errors, 3);
    assert_eq!(snap.streaming_errors, 1);
    assert_eq!(snap.storage_errors, 1);
    m.reset();
    let cleared = m.get_current();
    assert_eq!(cleared.total_errors, 0);
    assert_eq!(cleared.streaming_errors, 0);
    assert_eq!(cleared.storage_errors, 0);
}

#[test]
fn metrics_store_counts_per_room() {
    let mut store = MetricsStore::new();
    store.record_bytes("r1".to_string(), 1000);
    store.record_bytes("r1".to_string(), 500);
    store.record_bytes("r2".to_string(), 42);
    store.record_frames("r1".to_string(), 3);
    store.record_errors("r1".to_string(), 2);

    let r1 = store.get_room_metrics(&"r1".to_string()).unwrap();
    assert_eq!(r1.bytes_transferred, 1500);
    assert_eq!(r1.frames_processed, 3);
    assert_eq!(r1.error_count, 2);

    let r3 = store.get_room_metrics(&"r3".to_string()).unwrap();
    assert_eq!(r3.bytes_transferred, 0);
    assert_eq!(r3.frames_processed, 0);
    assert_eq!(r3.error_count, 0);
}

#[test]
fn metrics_store_user_rollup() {
    let mut store = MetricsStore::new();
    store.record_bytes("r1".to_string(), 100);
    store.record_bytes("r2".to_string(), 200);
    store.record_frames("r1".to_string(), 1);
    let user = store.get_user_metrics().unwrap();
    assert_eq!(user.total_rooms, 1);
    assert_eq!(user.total_storage, 300);
    assert_eq!(user.total_bandwidth, 300);
}

#[test]
fn metrics_store_total_requests() {
    let mut store = MetricsStore::new();
    assert_eq!(store.get_total_requests(), 0);
    let api = "/rooms".to_string();
    let ws = "/ws".to_string();
    store.record_request(&api);
    store.record_request(&api);
    store.record_request(&ws);
    store.record_error(&ws);
    assert_eq!(store.get_total_requests(), 3);
}

#[test]
fn connection_tracker_enforces_limits() {
    let mut t = ConnectionTracker::with_max_connections(2);
    let rid = "r1".to_string();
    assert!(t.check_limits(&rid));
    t.add_connection(&rid);
    t.add_connection(&rid);
    assert!(!t.check_limits(&rid));
    assert_eq!(t.get_connection_count(&rid), 2);
    t.remove_connection(&rid);
    assert!(t.check_limits(&rid));
    // Removal never goes below zero, and unknown rooms stay at zero.
    t.remove_connection(&rid);
    t.remove_connection(&rid);
    assert_eq!(t.get_connection_count(&rid), 0);
    assert_eq!(t.get_connection_count(&"other".to_string()), 0);
}

#[test]
fn connection_tracker_default_limit() {
    let t = ConnectionTracker::new();
    assert_eq!(t.max_connections, 100);
}

#[test]
fn log_filter_rules() {
    assert!(should_log(LogLevel::Error, LogModule::Stream));
    assert!(should_log(LogLevel::Warn, LogModule::Metrics));
    assert!(!should_log(LogLevel::Info, LogModule::Stream));
    assert!(!should_log(LogLevel::Info, LogModule::Metrics));
    assert!(should_log(LogLevel::Info, LogModule::Other));
    assert!(should_log(LogLevel::Debug, LogModule::Auth));
    assert!(should_log(LogLevel::Trace, LogModule::Storage));
    assert!(!should_log(LogLevel::Debug, LogModule::Stream));
    assert!(!should_log(LogLevel::Trace, LogModule::Other));
}

#[test]
fn gc_due_after_an_hour() {
    assert!(!gc_due(0, 3600));
    assert!(gc_due(0, 3601));
    assert!(!gc_due(1000, 2000));
}
