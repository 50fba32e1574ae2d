use vk_catalog::manager::DownloadManager;
use vk_catalog::manager::DownloadTask;
use vk_catalog::worker::join_path;
use vk_catalog::worker::open_mode_for_status;
use vk_catalog::worker::progress_percent;
use vk_catalog::worker::range_header;
use vk_catalog::worker::sanitize_file_name;
use vk_catalog::worker::speed_bytes_per_sec;
use vk_catalog::worker::total_bytes_for;
use vk_catalog::worker::ChunkOutcome;
use vk_catalog::worker::OpenMode;
use vk_catalog::worker::WorkerState;

fn task(id: &str) -> DownloadTask {
    DownloadTask {
        id: id.to_string(),
        url: format!("https://host/{}", id),
        directory: "/tmp/dl".to_string(),
        file_name: format!("{}.pdf", id),
        token: None,
    }
}

#[test]
fn file_names_are_sanitised_for_windows() {
    assert_eq!(sanitize_file_name("a<b>c:d\"e/f\\g|h?i*j.pdf"), "a_b_c_d_e_f_g_h_i_j.pdf");
    assert_eq!(sanitize_file_name("plain.pdf"), "plain.pdf");
}

#[test]
fn paths_join_with_one_separator() {
    assert_eq!(join_path("/tmp/dl", "a.pdf"), "/tmp/dl/a.pdf");
    assert_eq!(join_path("/tmp/dl/", "a.pdf"), "/tmp/dl/a.pdf");
}

#[test]
fn resume_sends_a_range_header() {
    assert_eq!(range_header(400).as_deref(), Some("bytes=400-"));
    assert!(range_header(0).is_none());
}

#[test]
fn resume_appends_on_partial_content() {
    // A server that honours the range: the file grows from the offset.
    assert_eq!(open_mode_for_status(206, 400), (OpenMode::Append, 400));
    assert_eq!(total_bytes_for(Some(600), 400), Some(1000));
    let mut st = WorkerState::start(400, Some(1000), 0);
    match st.on_chunk(600, false, 500) {
        ChunkOutcome::Progress(p) => {
            assert_eq!(p.received_bytes, 1000);
            assert_eq!(p.total_bytes, Some(1000));
            assert_eq!(p.percent, 100);
            assert_eq!(p.speed_bytes, 1200);
        },
        _ => panic!("expected a progress report"),
    }
}

#[test]
fn full_body_on_resume_truncates_and_restarts() {
    // The server ignored the range and sent everything: truncate, start at
    // zero, and the total is the content length alone.
    assert_eq!(open_mode_for_status(200, 400), (OpenMode::Truncate, 0));
    assert_eq!(total_bytes_for(Some(1000), 0), Some(1000));
    let mut st = WorkerState::start(0, Some(1000), 0);
    match st.on_chunk(1000, false, 1000) {
        ChunkOutcome::Progress(p) => {
            assert_eq!(p.received_bytes, 1000);
            assert_eq!(p.percent, 100);
        },
        _ => panic!("expected a progress report"),
    }
}

#[test]
fn cancellation_is_observed_at_the_next_chunk() {
    let mut st = WorkerState::start(0, Some(1000), 0);
    match st.on_chunk(100, false, 200) {
        ChunkOutcome::Progress(_) => {},
        _ => panic!("expected progress"),
    }
    match st.on_chunk(100, true, 400) {
        ChunkOutcome::Aborted => {},
        _ => panic!("a set cancel signal must abort at the chunk boundary"),
    }
}

#[test]
fn progress_emission_is_throttled() {
    let mut st = WorkerState::start(0, Some(1000), 0);
    match st.on_chunk(10, false, 50) {
        ChunkOutcome::Quiet => {},
        _ => panic!("too soon to emit"),
    }
    match st.on_chunk(10, false, 150) {
        ChunkOutcome::Progress(p) => {
            assert_eq!(p.received_bytes, 20);
            assert_eq!(p.percent, 2);
        },
        _ => panic!("expected progress after the throttle window"),
    }
}

#[test]
fn percent_and_speed_handle_edge_values() {
    assert_eq!(progress_percent(50, Some(200)), 25);
    assert_eq!(progress_percent(50, None), 0);
    assert_eq!(progress_percent(50, Some(0)), 0);
    assert_eq!(speed_bytes_per_sec(1000, 0), 0);
    assert_eq!(speed_bytes_per_sec(1000, 2000), 500);
}

#[test]
fn bounded_pool_never_exceeds_three() {
    let mut m = DownloadManager::new();
    for i in 0..10 {
        m.add_task(task(&format!("t{}", i)));
        while let Some(_t) = m.schedule_next() {
            assert!(m.active_len() <= 3);
        }
        assert!(m.active_len() <= 3);
    }
    assert_eq!(m.active_len(), 3);
    assert_eq!(m.queue_len(), 7);
    // Drain: each completion frees a slot and the queue refills it.
    let mut completed = 0;
    while m.active_len() > 0 {
        let ids = m.snapshot_active();
        assert!(ids.len() <= 3);
        assert!(m.worker_done(&ids[0]));
        completed += 1;
        while let Some(_t) = m.schedule_next() {
            assert!(m.active_len() <= 3);
        }
    }
    assert_eq!(completed, 10);
    assert_eq!(m.queue_len(), 0);
}

#[test]
fn schedule_hands_out_fifo() {
    let mut m = DownloadManager::new();
    m.add_task(task("a"));
    m.add_task(task("b"));
    let first = m.schedule_next().unwrap();
    let second = m.schedule_next().unwrap();
    assert_eq!(first.id, "a");
    assert_eq!(second.id, "b");
    assert!(m.schedule_next().is_none());
}

#[test]
fn cancel_only_hits_active_downloads() {
    let mut m = DownloadManager::new();
    m.add_task(task("a"));
    assert!(!m.cancel_task("a")); // still queued: a known limitation
    m.schedule_next().unwrap();
    assert!(m.cancel_task("a"));
    assert_eq!(m.active_len(), 0);
    // A second cancel — or a late worker completion — finds nothing, so no
    // second terminal event is emitted.
    assert!(!m.cancel_task("a"));
    assert!(!m.worker_done("a"));
}

#[test]
fn clear_during_run_counts_queued_and_active() {
    let mut m = DownloadManager::new();
    for i in 0..5 {
        m.add_task(task(&format!("t{}", i)));
    }
    while m.schedule_next().is_some() {}
    assert_eq!(m.active_len(), 3);
    assert_eq!(m.queue_len(), 2);
    let aborted = m.snapshot_active();
    assert_eq!(aborted.len(), 3);
    let cleared = m.clear_queue();
    assert_eq!(cleared, 5);
    assert_eq!(m.active_len(), 0);
    assert_eq!(m.queue_len(), 0);
    // The previously active ids each get one aborted event from the caller.
    assert_eq!(aborted.len(), 3);
}

#[test]
fn completion_after_clear_is_silent() {
    let mut m = DownloadManager::new();
    m.add_task(task("a"));
    m.schedule_next().unwrap();
    m.clear_queue();
    assert!(!m.worker_done("a"));
}
