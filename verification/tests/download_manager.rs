use godot_asset_browser::download_manager::{DownloadManager, DownloadManagerConfig, DownloadStatus, RetryDecision};

#[test]
fn test_queue_and_begin_download() {
    let mut m = DownloadManager::new();
    assert!(m.queue_download_at("d1".to_string(), "https://x/a.zip".to_string(), "/tmp/a.zip".to_string(), 1).is_ok());
    assert!(m.queue_download_at("d1".to_string(), "https://x/a.zip".to_string(), "/tmp/a.zip".to_string(), 2).is_err());
    assert_eq!(m.get_queued_downloads().len(), 1);
    let (url, dest) = m.begin_download_at("d1", 3).unwrap();
    assert_eq!(url, "https://x/a.zip");
    assert_eq!(dest, "/tmp/a.zip");
    assert_eq!(m.get_download_info("d1").unwrap().status, DownloadStatus::InProgress);
    assert!(m.begin_download_at("d1", 4).is_err());
    assert!(m.begin_download_at("zz", 4).is_err());
}

#[test]
fn test_retry_decision() {
    let mut m = DownloadManager::new();
    m.queue_download_at("d".to_string(), "u".to_string(), "p".to_string(), 1).unwrap();
    let max = m.get_config().max_retries;
    match m.record_failed_attempt("d", max, "boom") {
        RetryDecision::GiveUp(msg) => assert!(msg.ends_with("attempts: boom")),
        _ => panic!("expected to give up"),
    }
    match m.record_failed_attempt("d", 0, "boom") {
        RetryDecision::RetryAfter(_) => {},
        _ => panic!("expected a retry"),
    }
}

#[test]
fn test_finish_and_clear() {
    let mut m = DownloadManager::new();
    m.queue_download_at("d".to_string(), "u".to_string(), "p".to_string(), 1).unwrap();
    m.begin_download_at("d", 2).unwrap();
    assert!(m.record_chunk_at("d", 10, Some(100), 3).is_ok());
    m.finish_download("d", Ok(()));
    assert_eq!(m.get_download_info("d").unwrap().status, DownloadStatus::Completed);
    m.clear_completed();
    assert!(m.get_download_info("d").is_none());
}

#[test]
fn test_pause_cancel_remove() {
    let mut m = DownloadManager::new();
    m.queue_download_at("d".to_string(), "u".to_string(), "p".to_string(), 1).unwrap();
    assert!(m.pause_download("d").is_err());
    m.begin_download_at("d", 2).unwrap();
    assert!(m.pause_download("d").is_ok());
    assert_eq!(m.get_download_info("d").unwrap().status, DownloadStatus::Paused);
    assert!(m.cancel_download("d").is_ok());
    assert_eq!(m.get_download_info("d").unwrap().status, DownloadStatus::Cancelled);
    assert!(m.remove_download("d").is_ok());
    assert!(m.remove_download("d").is_err());
}

#[test]
fn test_retry_delay_doubles() {
    let config = DownloadManagerConfig { max_retries: 10, retry_delay_seconds: 5, ..DownloadManagerConfig::default() };
    let mut m = DownloadManager::with_config(config);
    let delays: Vec<u64> = (1..=4)
        .map(|attempt| match m.record_failed_attempt("d", attempt, "boom") {
            RetryDecision::RetryAfter(s) => s,
            RetryDecision::GiveUp(_) => panic!("expected a retry"),
        })
        .collect();
    assert_eq!(delays, vec![5, 10, 20, 40]);
    let huge = DownloadManagerConfig { max_retries: u32::MAX, retry_delay_seconds: u64::MAX / 2, ..DownloadManagerConfig::default() };
    let mut m2 = DownloadManager::with_config(huge);
    match m2.record_failed_attempt("d", 3, "boom") {
        RetryDecision::RetryAfter(s) => assert_eq!(s, u64::MAX),
        RetryDecision::GiveUp(_) => panic!("expected a retry"),
    }
}
