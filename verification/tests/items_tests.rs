use channel_sync::items::{collect_work_items, ListingOutcome, VideoStub};

fn stub(id: &str, url: Option<&str>) -> VideoStub {
    VideoStub {
        id: id.to_string(),
        title: format!("video {}", id),
        url: url.map(|u| u.to_string()),
    }
}

#[test]
fn playlist_entries_become_work_items_in_order() {
    let listing = ListingOutcome::Playlist(Some(vec![
        stub("v1", Some("https://example/v1")),
        stub("v2", None),
        stub("v3", Some("https://example/v3")),
    ]));
    let items = collect_work_items("Alpha", &listing);
    assert_eq!(items.len(), 3);
    assert_eq!(items[0].channel_id, "Alpha");
    assert_eq!(items[0].video.id, "v1");
    assert_eq!(items[1].video.id, "v2");
    assert_eq!(items[1].video.url, None);
    assert_eq!(items[2].video.id, "v3");
    assert_eq!(items[2].channel_id, "Alpha");
}

#[test]
fn playlist_without_entry_list_yields_nothing() {
    let listing = ListingOutcome::Playlist(None);
    let items = collect_work_items("Alpha", &listing);
    assert_eq!(items.len(), 0);
}

#[test]
fn empty_playlist_yields_nothing() {
    let listing = ListingOutcome::Playlist(Some(vec![]));
    let items = collect_work_items("Alpha", &listing);
    assert_eq!(items.len(), 0);
}

#[test]
fn non_playlist_listing_yields_nothing() {
    let listing = ListingOutcome::NotPlaylist;
    let items = collect_work_items("Alpha", &listing);
    assert_eq!(items.len(), 0);
}
