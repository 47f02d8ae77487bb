//! Download outcomes: planning one download invocation from a work item,
//! and classifying what the external download tool reported.

use vstd::prelude::*;
use vstd::string::*;
use crate::identity::spec_archive_path;
use crate::items::WorkItem;

verus! {

/// Why a work item was skipped without invoking the download tool.
pub enum SkipReason {
    /// The video stub carries no URL, so there is nothing to download.
    NoUrl,
}

/// A genuine failure of the external download tool for one video.
pub struct DownloadError {
    pub message: String,
}

/// The terminal state of one work item.
pub enum DownloadOutcome {
    /// The tool produced the file and recorded the video in the ledger.
    Downloaded,
    /// The ledger already recorded the video; a successful no-op, the
    /// idempotence guarantee of the whole pipeline.
    AlreadySeen,
    /// The item was never handed to the tool.
    Skipped(SkipReason),
    /// The tool failed; reported, not retried, and contained to this item.
    Failed(DownloadError),
}

/// What one invocation of the external download tool reported, reduced to
/// the three shapes the pipeline distinguishes.
pub enum ToolResult {
    /// The tool exited successfully.
    Finished,
    /// The tool produced no parseable report, which it does exactly when
    /// the archive ledger already recorded the video.
    JsonError(String),
    /// Any other failure: transport, non-zero exit, timeout.
    ToolFailure(String),
}

/// How one work item is to be handled.
pub enum DownloadPlan {
    /// Do not invoke the tool; the item ends as `Skipped`.
    Skip(SkipReason),
    /// Invoke the tool with this exact configuration.
    Invoke {
        /// The video's own URL.
        video_url: String,
        /// Fixed output container format.
        format: String,
        /// Deterministic output path template: channel name and
        /// date-prefixed title, so directory listings sort by publish date.
        output_template: String,
        /// The channel's archive ledger, passed as an exclusion filter.
        archive_path: String,
    },
}

/// The fixed output container format handed to the download tool.
pub open spec fn spec_output_format() -> Seq<char> {
    "mp4"@
}

/// The fixed output path template handed to the download tool.
pub open spec fn spec_output_template() -> Seq<char> {
    "channels/%(channel)s/%(upload_date>%Y-%m-%d)s - %(title)s.mp4"@
}

/// Decides how a work item is handled: an item without a video URL is
/// skipped as `NoUrl`; any other item yields the exact tool invocation,
/// with the archive ledger of the item's channel as exclusion filter.
pub fn plan_download(item: &WorkItem) -> (p: DownloadPlan)
    ensures
        match item.video.url {
            None => p == DownloadPlan::Skip(SkipReason::NoUrl),
            Some(_) => match p {
                DownloadPlan::Invoke { video_url, format, output_template, archive_path } => {
                    &&& Some(video_url@) == item@.video.url
                    &&& format@ == spec_output_format()
                    &&& output_template@ == spec_output_template()
                    &&& archive_path@ == spec_archive_path(item.channel_id@)
                },
                _ => false,
            },
        },
{
    match &item.video.url {
        None => DownloadPlan::Skip(SkipReason::NoUrl),
        Some(u) => DownloadPlan::Invoke {
            video_url: u.clone(),
            format: String::from_str("mp4"),
            output_template: String::from_str(
                "channels/%(channel)s/%(upload_date>%Y-%m-%d)s - %(title)s.mp4",
            ),
            archive_path: crate::identity::make_archive_file_path(item.channel_id.as_str()),
        },
    }
}

/// Interprets the external tool's report: a clean exit means the video was
/// downloaded; a missing parseable report means the ledger already held the
/// video, a success; everything else is a genuine failure.
pub fn classify_tool_result(r: ToolResult) -> (o: DownloadOutcome)
    ensures
        match r {
            ToolResult::Finished => o == DownloadOutcome::Downloaded,
            ToolResult::JsonError(_) => o == DownloadOutcome::AlreadySeen,
            ToolResult::ToolFailure(m) => o == DownloadOutcome::Failed(
                DownloadError { message: m },
            ),
        },
{
    match r {
        ToolResult::Finished => DownloadOutcome::Downloaded,
        ToolResult::JsonError(_) => DownloadOutcome::AlreadySeen,
        ToolResult::ToolFailure(m) => DownloadOutcome::Failed(DownloadError { message: m }),
    }
}

} // verus!
