use kvs::config::{encode_engine_config, parse_engine_config, resolve_engine, KvsEngineType};
use kvs::files::{get_new_file_path, is_log_file, log_file_path, newest_log_file};
use kvs::protocol::{KvRequest, KvResponse};
use kvs::server::handle_request;
use kvs::sled_engine::{found_to_value, opened_to_engine, removed_to_result};
use kvs::store::KvStore;
use kvs::thread_pool::{RayonThreadPool, WorkerPool};
use kvs::KvsError;
use std::sync::atomic::{AtomicUsize, Ordering};
use std::sync::Arc;

#[test]
fn switching_engines_is_refused() {
    match resolve_engine(Some(KvsEngineType::Sled), Some(KvsEngineType::Kvs)) {
        Err(KvsError::WrongEngine) => {}
        other => panic!("expected WrongEngine, got {:?}", other),
    }
    match resolve_engine(Some(KvsEngineType::Kvs), Some(KvsEngineType::Sled)) {
        Err(KvsError::WrongEngine) => {}
        other => panic!("expected WrongEngine, got {:?}", other),
    }
}

#[test]
fn recorded_engine_wins_and_kvs_is_the_default() {
    assert_eq!(resolve_engine(Some(KvsEngineType::Sled), None).unwrap(), KvsEngineType::Sled);
    assert_eq!(
        resolve_engine(Some(KvsEngineType::Kvs), Some(KvsEngineType::Kvs)).unwrap(),
        KvsEngineType::Kvs
    );
    assert_eq!(resolve_engine(None, Some(KvsEngineType::Sled)).unwrap(), KvsEngineType::Sled);
    assert_eq!(resolve_engine(None, None).unwrap(), KvsEngineType::Kvs);
}

#[test]
fn engine_config_round_trips() {
    for t in [KvsEngineType::Kvs, KvsEngineType::Sled] {
        let bytes = encode_engine_config(t);
        assert_eq!(parse_engine_config(&bytes).unwrap(), t);
    }
}

#[test]
fn engine_config_exact_bytes() {
    assert_eq!(encode_engine_config(KvsEngineType::Kvs), b"\"Kvs\"".to_vec());
    assert_eq!(encode_engine_config(KvsEngineType::Sled), b"\"Sled\"".to_vec());
}

#[test]
fn unrecognized_engine_config_is_rejected() {
    let bytes = b"\"Rocks\"".to_vec();
    match parse_engine_config(&bytes) {
        Err(KvsError::SerializationError(_)) => {}
        other => panic!("expected SerializationError, got {:?}", other),
    }
}

#[test]
fn new_file_paths_are_log_files_under_the_directory() {
    let path = get_new_file_path("db");
    assert!(path.starts_with("db/"));
    assert!(path.ends_with(".kvs"));
    assert!(is_log_file(&path));
    let digits = &path["db/".len()..path.len() - ".kvs".len()];
    assert!(!digits.is_empty());
    assert!(digits.chars().all(|c| c.is_ascii_digit()));
}

#[test]
fn timestamps_name_log_files_exactly() {
    assert_eq!(log_file_path("db", 0), "db/0.kvs");
    assert_eq!(log_file_path("db", 42), "db/42.kvs");
    assert_eq!(log_file_path("./data", 1234567890123456789), "./data/1234567890123456789.kvs");
}

#[test]
fn log_file_extension_is_checked_exactly() {
    assert!(is_log_file("1234.kvs"));
    assert!(!is_log_file("config.info"));
    assert!(!is_log_file("kvs"));
    assert!(!is_log_file("1234.kvss"));
    assert!(!is_log_file(""));
}

#[test]
fn requests_drive_the_store_and_build_responses() {
    let mut store = KvStore::open(Vec::new()).unwrap();
    let put: KvRequest<String, String> = KvRequest::Put(("k".to_string(), "v".to_string()));
    let resp: KvResponse<String> = handle_request(&mut store, put);
    assert_eq!(resp.value, Ok(None));
    let got = handle_request(&mut store, KvRequest::Get("k".to_string()));
    assert_eq!(got.value, Ok(Some("v".to_string())));
    let miss = handle_request(&mut store, KvRequest::Get("missing".to_string()));
    assert_eq!(miss.value, Ok(None));
    let rm = handle_request(&mut store, KvRequest::Rm("k".to_string()));
    assert_eq!(rm.value, Ok(None));
    let rm_again = handle_request(&mut store, KvRequest::Rm("k".to_string()));
    assert_eq!(rm_again.value, Err(KvsError::NonExistantKey));
}

#[test]
fn rayon_pool_runs_submitted_jobs() {
    let pool = RayonThreadPool::new(2).expect("pool builds");
    let counter = Arc::new(AtomicUsize::new(0));
    for _ in 0..8 {
        let counter = Arc::clone(&counter);
        pool.spawn(move || {
            counter.fetch_add(1, Ordering::SeqCst);
        });
    }
    assert_eq!(counter.load(Ordering::SeqCst), 8);
}

#[test]
fn newest_log_file_picks_the_largest_timestamp() {
    let names = vec![
        "config.info".to_string(),
        "2.kvs".to_string(),
        "10.kvs".to_string(),
        "9.kvs".to_string(),
    ];
    // 10 is newest numerically even though "9.kvs" is lexicographically last.
    assert_eq!(newest_log_file(&names), Some("10.kvs".to_string()));
    let only_config = vec!["config.info".to_string(), "sled".to_string()];
    assert_eq!(newest_log_file(&only_config), None);
    assert_eq!(newest_log_file(&Vec::new()), None);
    let equal_len = vec!["31.kvs".to_string(), "29.kvs".to_string()];
    assert_eq!(newest_log_file(&equal_len), Some("31.kvs".to_string()));
}

#[test]
fn sled_read_results_are_mapped_exactly() {
    assert_eq!(found_to_value(None).unwrap(), None);
    assert_eq!(found_to_value(Some(b"hello".to_vec())).unwrap(), Some("hello".to_string()));
    match found_to_value(Some(vec![0xff, 0xfe])) {
        Err(KvsError::SerializationError(_)) => {}
        other => panic!("expected SerializationError, got {:?}", other),
    }
}

#[test]
fn sled_remove_results_are_mapped_exactly() {
    assert_eq!(removed_to_result(Some(b"old".to_vec())), Ok(()));
    assert_eq!(removed_to_result(None), Err(KvsError::NonExistantKey));
}

#[test]
fn sled_open_failures_are_io_errors() {
    let failed = opened_to_engine(Err(sled::Error::Unsupported("nope".to_string())));
    match failed {
        Err(KvsError::IOError(_)) => {}
        Ok(_) => panic!("an error must not open the engine"),
        Err(other) => panic!("expected IOError, got {:?}", other),
    }
}
