use tthsd::config::{
    build_tasks, default_config, default_user_agent, encode_tasks_json, select_sink,
    DownloadConfig, DownloadTask, SinkChoice,
};
use tthsd::json::JsonValue;
use tthsd::monitor::PerformanceMonitor;
use tthsd::status::DownloadStatus;

#[test]
fn monitor_counts_every_reported_byte() {
    // Cumulative bytes equal the sum of the deltas reported.
    let mut m = PerformanceMonitor::new(0);
    m.set_total_bytes(1000);
    m.add_bytes(300, 100);
    m.add_bytes(700, 200);
    assert_eq!(m.downloaded_bytes, 1000);
    assert_eq!(m.total_bytes, 1000);
}

#[test]
fn monitor_stats_carry_legacy_alias() {
    let mut m = PerformanceMonitor::new(0);
    m.set_total_bytes(2000);
    m.add_bytes(500, 1000);
    let stats = m.get_stats(1000);
    assert_eq!(stats.len(), 7);
    assert_eq!(stats[0].0, "total_bytes");
    assert_eq!(stats[1].0, "downloaded_bytes");
    assert_eq!(stats[2].0, "Downloaded");
    // The legacy alias always equals downloaded_bytes.
    assert_eq!(stats[2].1, stats[1].1);
    assert_eq!(stats[1].1, JsonValue::Num(500));
    assert_eq!(stats[6].0, "progress_percentage");
    assert_eq!(stats[6].1, JsonValue::Num(25));
}

#[test]
fn monitor_average_speed() {
    let mut m = PerformanceMonitor::new(0);
    m.add_bytes(1000, 1000);
    // 1000 bytes over the 1000 ms since the clock started: 1000 B/s.
    let stats = m.get_stats(2000);
    assert_eq!(stats[4].0, "average_speed_bps");
    assert_eq!(stats[4].1, JsonValue::Num(1000));
    assert_eq!(stats[5].0, "elapsed_seconds");
    assert_eq!(stats[5].1, JsonValue::Num(1));
}

#[test]
fn status_snapshot_fields() {
    let mut s = DownloadStatus::new(1000, 500);
    s.add_downloaded(250);
    let snap = s.snapshot(111, 222, 1500);
    assert_eq!(snap.downloaded, 250);
    assert_eq!(snap.total_size, 1000);
    assert_eq!(snap.progress_percentage, 25);
    assert!(!snap.is_finished);
    assert_eq!(snap.current_speed_bps, 111);
    assert_eq!(snap.average_speed_bps, 222);
    assert_eq!(snap.elapsed_ms, 1000);
    s.add_downloaded(750);
    assert!(s.snapshot(0, 0, 2000).is_finished);
}

#[test]
fn status_error_finishes_task() {
    let mut s = DownloadStatus::new(1000, 0);
    assert_eq!(s.get_error(), None);
    s.set_error(String::from("boom"));
    assert_eq!(s.get_error(), Some(String::from("boom")));
    assert!(s.snapshot(0, 0, 0).is_finished);
}

#[test]
fn default_config_resolves_zeroes() {
    let cfg = default_config(Vec::new(), 0, 0);
    // 0 threads means twice the logical CPUs: at least 2.
    assert!(cfg.thread_count >= 2);
    assert_eq!(cfg.chunk_size_mb, 10);
    assert_eq!(cfg.user_agent, default_user_agent());
    let cfg2 = default_config(Vec::new(), 7, 3);
    assert_eq!(cfg2.thread_count, 7);
    assert_eq!(cfg2.chunk_size_mb, 3);
}

#[test]
fn build_tasks_derives_names_and_ids() {
    let urls = vec![
        String::from("https://host/dir/file.zip?token=1"),
        String::from("https://host/plain"),
    ];
    let paths = vec![String::from("/tmp/a"), String::from("/tmp/b")];
    let tasks = build_tasks(&urls, &paths, None, None);
    assert_eq!(tasks.len(), 2);
    assert_eq!(tasks[0].show_name, "file.zip");
    assert_eq!(tasks[1].show_name, "plain");
    // Freshly drawn identifiers render as 36 characters.
    assert_eq!(tasks[0].id.chars().count(), 36);
    assert_ne!(tasks[0].id, tasks[1].id);
}

#[test]
fn build_tasks_falls_back_to_task_index() {
    let urls = vec![String::from("https://host/dir/?q=1")];
    let paths = vec![String::from("/tmp/x")];
    let tasks = build_tasks(&urls, &paths, None, None);
    assert_eq!(tasks[0].show_name, "task_0");
}

#[test]
fn build_tasks_keeps_provided_names_and_ids() {
    let urls = vec![String::from("https://host/a")];
    let paths = vec![String::from("/tmp/a")];
    let names = vec![String::from("pretty")];
    let ids = vec![String::from("my-id")];
    let tasks = build_tasks(&urls, &paths, Some(&names), Some(&ids));
    assert_eq!(tasks[0].show_name, "pretty");
    assert_eq!(tasks[0].id, "my-id");
}

#[test]
fn tasks_json_shape() {
    let tasks = vec![DownloadTask {
        url: String::from("http://h/f"),
        save_path: String::from("/tmp/f"),
        show_name: String::from("f"),
        id: String::from("i"),
    }];
    let text = encode_tasks_json(&tasks);
    assert_eq!(
        text,
        "[{\"url\":\"http://h/f\",\"save_path\":\"/tmp/f\",\"show_name\":\"f\",\"id\":\"i\"}]"
    );
    let v: serde_json::Value = serde_json::from_str(&text).unwrap();
    assert_eq!(v[0]["url"].as_str().unwrap(), "http://h/f");
}

#[test]
fn sink_selection() {
    let mut cfg = DownloadConfig {
        tasks: Vec::new(),
        thread_count: 1,
        chunk_size_mb: 1,
        has_callback: false,
        use_callback_url: true,
        callback_url: Some(String::from("ws://h:1/cb")),
        use_socket: Some(false),
        show_name: String::new(),
        user_agent: String::new(),
    };
    assert_eq!(
        select_sink(&cfg),
        SinkChoice::WebSock(String::from("ws://h:1/cb"))
    );
    cfg.use_socket = Some(true);
    assert_eq!(select_sink(&cfg), SinkChoice::Tcp(String::from("ws://h:1/cb")));
    cfg.use_socket = None;
    assert_eq!(select_sink(&cfg), SinkChoice::NoSink);
    cfg.use_socket = Some(true);
    cfg.use_callback_url = false;
    assert_eq!(select_sink(&cfg), SinkChoice::NoSink);
}

#[test]
fn fallback_thread_count_doubles() {
    assert_eq!(tthsd::config::fallback_thread_count(1), 2);
    assert_eq!(tthsd::config::fallback_thread_count(4), 8);
    assert_eq!(tthsd::config::fallback_thread_count(0x3FFF_FFFF), 0x7FFF_FFFE);
    assert_eq!(tthsd::config::fallback_thread_count(usize::MAX), 0x7FFF_FFFE);
}

#[test]
fn monitor_window_trims_stale_samples() {
    let mut m = PerformanceMonitor::new(0);
    m.add_bytes(1000, 0);
    m.add_bytes(500, 1000);
    // Both samples are within the 2 s window: the slope runs from the
    // oldest one: (1500 - 1000) * 1000 / (2000 - 0) = 250 B/s.
    let stats = m.get_stats(2000);
    assert_eq!(stats[3].0, "current_speed_bps");
    assert_eq!(stats[3].1, JsonValue::Num(250));
    // A much later reading pushes every earlier sample out of the window.
    m.add_bytes(100, 10_000);
    assert_eq!(m.samples.len(), 1);
    assert_eq!(m.samples[0], (10_000, 1600));
    let stats = m.get_stats(10_000);
    assert_eq!(stats[3].1, JsonValue::Num(0));
}

#[test]
fn monitor_clock_starts_at_first_addition() {
    let mut m = PerformanceMonitor::new(0);
    assert!(!m.started);
    m.add_bytes(10, 700);
    assert!(m.started);
    assert_eq!(m.start_time_ms, 700);
    m.add_bytes(10, 900);
    assert_eq!(m.start_time_ms, 700);
}
