use channel_sync::identity::Channel;
use channel_sync::items::{ListingOutcome, VideoStub, WorkItem};
use channel_sync::ledger::LedgerStore;
use channel_sync::pipeline::run_pipeline;
use channel_sync::queue::WorkQueue;

fn channel(url: &str) -> Channel {
    Channel { url: url.to_string() }
}

fn stub(id: &str, url: Option<&str>) -> VideoStub {
    VideoStub {
        id: id.to_string(),
        title: format!("video {}", id),
        url: url.map(|u| u.to_string()),
    }
}

fn playlist(stubs: Vec<VideoStub>) -> Result<ListingOutcome, channel_sync::items::EnumerationError> {
    Ok(ListingOutcome::Playlist(Some(stubs)))
}

#[test]
fn scenario_alpha_yields_three_beta_yields_none() {
    let channels = vec![
        channel("https://example/c/Alpha"),
        channel("https://example/c/Beta"),
    ];
    let listings = vec![
        playlist(vec![
            stub("a1", Some("https://example/a1")),
            stub("a2", Some("https://example/a2")),
            stub("a3", Some("https://example/a3")),
        ]),
        playlist(vec![]),
    ];
    let oracle = vec![true; 3];
    let mut store = LedgerStore::new();
    let s = run_pipeline(&channels, &listings, &oracle, &mut store);
    assert!(store.has_ledger("Alpha"));
    assert!(!store.has_ledger("Beta"));
    assert_eq!(s.producers_completed, 2);
    assert_eq!(s.enqueued, 3);
    assert_eq!(s.processed, 3);
    assert_eq!(s.downloaded, 3);
    assert_eq!(s.malformed_channels, 0);
    assert_eq!(s.skipped_no_url, 0);
    assert_eq!(s.failed, 0);
}

#[test]
fn empty_channel_list_terminates_with_empty_summary() {
    let channels: Vec<Channel> = vec![];
    let listings = vec![];
    let oracle: Vec<bool> = vec![];
    let mut store = LedgerStore::new();
    let s = run_pipeline(&channels, &listings, &oracle, &mut store);
    assert_eq!(s.producers_completed, 0);
    assert_eq!(s.enqueued, 0);
    assert_eq!(s.processed, 0);
}

#[test]
fn zero_video_channel_terminates_without_a_ledger() {
    let channels = vec![channel("https://example/c/Alpha")];
    let listings = vec![playlist(vec![])];
    let oracle: Vec<bool> = vec![];
    let mut store = LedgerStore::new();
    let s = run_pipeline(&channels, &listings, &oracle, &mut store);
    assert_eq!(s.producers_completed, 1);
    assert_eq!(s.enqueued, 0);
    assert_eq!(s.processed, 0);
    assert!(!store.has_ledger("Alpha"));
}

#[test]
fn malformed_url_is_reported_and_blocks_nothing() {
    let channels = vec![channel("///"), channel("https://example/c/Beta")];
    let listings = vec![
        playlist(vec![]),
        playlist(vec![stub("b1", Some("https://example/b1"))]),
    ];
    let oracle = vec![true; 1];
    let mut store = LedgerStore::new();
    let s = run_pipeline(&channels, &listings, &oracle, &mut store);
    assert_eq!(s.malformed_channels, 1);
    assert_eq!(s.producers_completed, 2);
    assert_eq!(s.enqueued, 1);
    assert_eq!(s.downloaded, 1);
    assert!(store.has_ledger("Beta"));
}

#[test]
fn enumeration_error_is_contained_to_its_channel() {
    let channels = vec![
        channel("https://example/c/Alpha"),
        channel("https://example/c/Beta"),
    ];
    let listings = vec![
        Err(channel_sync::items::EnumerationError { message: "listing failed".to_string() }),
        playlist(vec![stub("b1", Some("https://example/b1"))]),
    ];
    let oracle = vec![true; 1];
    let mut store = LedgerStore::new();
    let s = run_pipeline(&channels, &listings, &oracle, &mut store);
    assert_eq!(s.enumeration_errors, 1);
    assert_eq!(s.producers_completed, 2);
    assert_eq!(s.enqueued, 1);
    assert_eq!(s.downloaded, 1);
    assert!(!store.has_ledger("Alpha"));
    assert!(store.has_ledger("Beta"));
}

#[test]
fn item_without_url_is_skipped_and_not_failed() {
    let channels = vec![channel("https://example/c/Alpha")];
    let listings = vec![playlist(vec![
        stub("a1", None),
        stub("a2", Some("https://example/a2")),
    ])];
    let oracle = vec![true; 2];
    let mut store = LedgerStore::new();
    let s = run_pipeline(&channels, &listings, &oracle, &mut store);
    assert_eq!(s.skipped_no_url, 1);
    assert_eq!(s.failed, 0);
    assert_eq!(s.downloaded, 1);
    assert_eq!(s.processed, 2);
    assert!(!store.contains_video("Alpha", "a1"));
    assert!(store.contains_video("Alpha", "a2"));
}

#[test]
fn second_run_over_unchanged_catalog_downloads_nothing() {
    let channels = vec![channel("https://example/c/Alpha")];
    let listings = vec![playlist(vec![
        stub("a1", Some("https://example/a1")),
        stub("a2", Some("https://example/a2")),
        stub("a3", Some("https://example/a3")),
    ])];
    let oracle = vec![true; 3];
    let mut store = LedgerStore::new();
    let first = run_pipeline(&channels, &listings, &oracle, &mut store);
    assert_eq!(first.downloaded, 3);
    assert_eq!(first.failed, 0);
    assert_eq!(store.ledger_size("Alpha"), Some(3));
    let second = run_pipeline(&channels, &listings, &oracle, &mut store);
    assert_eq!(second.downloaded, 0);
    assert_eq!(second.already_seen, 3);
    assert_eq!(second.failed, 0);
    assert_eq!(store.ledger_size("Alpha"), Some(3));
}

#[test]
fn failed_download_is_reported_and_retried_on_the_next_run() {
    let channels = vec![channel("https://example/c/Alpha")];
    let listings = vec![playlist(vec![
        stub("a1", Some("https://example/a1")),
        stub("a2", Some("https://example/a2")),
    ])];
    let mut store = LedgerStore::new();
    let first = run_pipeline(&channels, &listings, &vec![true, false], &mut store);
    assert_eq!(first.downloaded, 1);
    assert_eq!(first.failed, 1);
    assert_eq!(store.ledger_size("Alpha"), Some(1));
    let second = run_pipeline(&channels, &listings, &vec![true, true], &mut store);
    assert_eq!(second.downloaded, 1);
    assert_eq!(second.already_seen, 1);
    assert_eq!(second.failed, 0);
    assert_eq!(store.ledger_size("Alpha"), Some(2));
}

#[test]
fn queue_delivers_in_order_and_survives_close() {
    let mut q = WorkQueue::new();
    q.push(WorkItem { channel_id: "Alpha".to_string(), video: stub("a1", None) });
    q.push(WorkItem { channel_id: "Alpha".to_string(), video: stub("a2", None) });
    q.close();
    let first = q.pop().unwrap();
    assert_eq!(first.video.id, "a1");
    let second = q.pop().unwrap();
    assert_eq!(second.video.id, "a2");
    assert!(q.pop().is_none());
}
