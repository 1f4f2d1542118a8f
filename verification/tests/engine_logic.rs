use tthsd::engine::{
    parse_content_length, prealloc_outcome, range_header_value, check_range_status, is_stalled,
    task_outcome, ChunkProgress, BATCH_UPDATE_THRESHOLD,
};
use tthsd::errors::DownloadError;

#[test]
fn probe_accepts_positive_content_length() {
    assert_eq!(parse_content_length(200, Some("1024")), Ok(1024));
    assert_eq!(parse_content_length(206, Some("1")), Ok(1));
    assert_eq!(
        parse_content_length(200, Some("9223372036854775807")),
        Ok(i64::MAX)
    );
}

#[test]
fn probe_zero_length_is_unknown_size() {
    // A zero-byte resource reports an invalid content length.
    assert_eq!(
        parse_content_length(200, Some("0")),
        Err(DownloadError::UnknownSize)
    );
}

#[test]
fn probe_missing_or_malformed_header_is_unknown_size() {
    assert_eq!(parse_content_length(200, None), Err(DownloadError::UnknownSize));
    assert_eq!(
        parse_content_length(200, Some("")),
        Err(DownloadError::UnknownSize)
    );
    assert_eq!(
        parse_content_length(200, Some("12x3")),
        Err(DownloadError::UnknownSize)
    );
    assert_eq!(
        parse_content_length(200, Some("-5")),
        Err(DownloadError::UnknownSize)
    );
    assert_eq!(
        parse_content_length(200, Some("9223372036854775808")),
        Err(DownloadError::UnknownSize)
    );
}

#[test]
fn probe_bad_status() {
    assert_eq!(
        parse_content_length(404, Some("10")),
        Err(DownloadError::BadStatus(404))
    );
    assert_eq!(
        parse_content_length(500, None),
        Err(DownloadError::BadStatus(500))
    );
}

#[test]
fn ranged_get_requires_partial_content() {
    assert_eq!(check_range_status(206), Ok(()));
    // A server without byte-range support answers 200 with the full body:
    // that must fail rather than silently corrupt the file.
    assert_eq!(check_range_status(200), Err(DownloadError::BadStatus(200)));
    assert_eq!(check_range_status(416), Err(DownloadError::BadStatus(416)));
}

#[test]
fn range_header_text() {
    assert_eq!(range_header_value(0, 1048575), "bytes=0-1048575");
    assert_eq!(range_header_value(1048576, 2097151), "bytes=1048576-2097151");
}

#[test]
fn prealloc_failure_over_fat32_limit() {
    // 4.5 GiB: pre-allocation failure on a FAT32-like filesystem fails the
    // task, and the message carries the computed size.
    let size: i64 = 4_831_838_208;
    let r = prealloc_outcome(size, false);
    assert_eq!(r, Err(DownloadError::FilesystemTooSmall(size)));
    let msg = DownloadError::FilesystemTooSmall(size).message();
    assert_eq!(
        msg,
        "file size (4.50 GB) exceeds the FAT32 limit of 4 GB; choose an NTFS/exFAT volume"
    );
}

#[test]
fn prealloc_failure_under_limit_is_tolerated() {
    assert_eq!(prealloc_outcome(1_073_741_824, false), Ok(()));
    assert_eq!(prealloc_outcome(4_831_838_208, true), Ok(()));
}

#[test]
fn stall_detection_thresholds() {
    assert!(!is_stalled(0, 30_000));
    assert!(is_stalled(0, 30_001));
    assert!(!is_stalled(5_000, 35_000));
    assert!(is_stalled(5_000, 35_001));
}

#[test]
fn batched_accounting_publishes_at_threshold() {
    let mut p = ChunkProgress::new();
    assert_eq!(p.on_bytes(BATCH_UPDATE_THRESHOLD - 1), 0);
    assert_eq!(p.on_bytes(1), BATCH_UPDATE_THRESHOLD);
    assert_eq!(p.on_bytes(10), 0);
    assert_eq!(p.flush(), 10);
    assert_eq!(p.published, BATCH_UPDATE_THRESHOLD + 10);
}

#[test]
fn accounting_totals_equal_bytes_received() {
    // Whatever the batching, published bytes after a flush equal the bytes
    // received.
    let mut p = ChunkProgress::new();
    let pieces = [100i64, 524_288, 3, 0, 999_999];
    let mut sum = 0i64;
    for &n in &pieces {
        p.on_bytes(n);
        sum += n;
    }
    p.flush();
    assert_eq!(p.published, sum);
}

#[test]
fn task_outcome_success() {
    let results: Vec<Result<i64, DownloadError>> = vec![Ok(600), Ok(400)];
    assert_eq!(task_outcome(&results, 1000), Ok(()));
}

#[test]
fn task_outcome_incomplete() {
    let results: Vec<Result<i64, DownloadError>> = vec![Ok(600), Ok(300)];
    assert_eq!(
        task_outcome(&results, 1000),
        Err(DownloadError::Incomplete(900, 1000))
    );
    assert_eq!(
        DownloadError::Incomplete(900, 1000).message(),
        "download incomplete: 900/1000 bytes"
    );
}

#[test]
fn task_outcome_first_chunk_error_wins() {
    let results: Vec<Result<i64, DownloadError>> = vec![
        Ok(600),
        Err(DownloadError::BadStatus(500)),
        Err(DownloadError::Stalled),
    ];
    assert_eq!(task_outcome(&results, 1000), Err(DownloadError::BadStatus(500)));
}

#[test]
fn error_messages() {
    assert_eq!(DownloadError::UnknownSize.message(), "Invalid content length");
    assert_eq!(DownloadError::BadStatus(500).message(), "Bad status: 500");
    assert_eq!(DownloadError::Stalled.message(), "connection stalled");
    assert_eq!(
        DownloadError::AlreadyRunning.message(),
        "downloader already running"
    );
    assert_eq!(
        DownloadError::NetworkError(String::from("refused")).message(),
        "network error: refused"
    );
    assert_eq!(DownloadError::InvalidConfig.message(), "invalid config");
    assert_eq!(DownloadError::Cancelled.message(), "cancelled");
    assert_eq!(DownloadError::NoSession.message(), "no downloader with this id");
}
