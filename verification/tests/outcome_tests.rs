use channel_sync::items::{VideoStub, WorkItem};
use channel_sync::outcome::{
    classify_tool_result, plan_download, DownloadOutcome, DownloadPlan, SkipReason, ToolResult,
};

fn item(id: &str, url: Option<&str>) -> WorkItem {
    WorkItem {
        channel_id: "Alpha".to_string(),
        video: VideoStub {
            id: id.to_string(),
            title: format!("video {}", id),
            url: url.map(|u| u.to_string()),
        },
    }
}

#[test]
fn item_without_url_is_skipped_as_no_url() {
    let plan = plan_download(&item("v1", None));
    assert!(matches!(plan, DownloadPlan::Skip(SkipReason::NoUrl)));
}

#[test]
fn item_with_url_yields_full_tool_invocation() {
    let plan = plan_download(&item("v1", Some("https://example/v1")));
    match plan {
        DownloadPlan::Invoke { video_url, format, output_template, archive_path } => {
            assert_eq!(video_url, "https://example/v1");
            assert_eq!(format, "mp4");
            assert_eq!(
                output_template,
                "channels/%(channel)s/%(upload_date>%Y-%m-%d)s - %(title)s.mp4"
            );
            assert_eq!(archive_path, "archives/Alpha/archive.txt");
        }
        _ => panic!("an item with a URL must be handed to the tool"),
    }
}

#[test]
fn clean_tool_exit_counts_as_downloaded() {
    let outcome = classify_tool_result(ToolResult::Finished);
    assert!(matches!(outcome, DownloadOutcome::Downloaded));
}

#[test]
fn missing_tool_report_counts_as_already_seen() {
    let outcome = classify_tool_result(ToolResult::JsonError("EOF".to_string()));
    assert!(matches!(outcome, DownloadOutcome::AlreadySeen));
}

#[test]
fn genuine_tool_failure_is_reported_with_its_message() {
    let outcome = classify_tool_result(ToolResult::ToolFailure("exit code 1".to_string()));
    match outcome {
        DownloadOutcome::Failed(err) => assert_eq!(err.message, "exit code 1"),
        _ => panic!("a tool failure must surface as Failed"),
    }
}
