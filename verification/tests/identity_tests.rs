use channel_sync::identity::{get_channel_id, make_archive_file_path, Channel};

fn channel(url: &str) -> Channel {
    Channel { url: url.to_string() }
}

#[test]
fn channel_id_is_last_path_segment() {
    let c = channel("https://example/c/Alpha");
    assert_eq!(get_channel_id(&c).unwrap(), "Alpha");
}

#[test]
fn channel_id_ignores_trailing_separators() {
    let c = channel("https://example/c/Alpha///");
    assert_eq!(get_channel_id(&c).unwrap(), "Alpha");
}

#[test]
fn channel_id_of_url_without_separator_is_whole_url() {
    let c = channel("Alpha");
    assert_eq!(get_channel_id(&c).unwrap(), "Alpha");
}

#[test]
fn channel_id_of_empty_url_is_malformed() {
    let c = channel("");
    let err = get_channel_id(&c).unwrap_err();
    assert_eq!(err.bad_url, "");
}

#[test]
fn channel_id_of_separators_only_is_malformed() {
    let c = channel("///");
    let err = get_channel_id(&c).unwrap_err();
    assert_eq!(err.bad_url, "///");
}

#[test]
fn archive_path_is_keyed_by_channel_id() {
    assert_eq!(make_archive_file_path("Alpha"), "archives/Alpha/archive.txt");
}
