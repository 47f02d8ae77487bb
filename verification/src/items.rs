//! Work items: the video stubs a channel enumeration yields, and the
//! mapping from an enumeration result to the work items put on the queue.

use vstd::prelude::*;
use vstd::string::*;
use crate::identity::spec_channel_id;

verus! {

/// One video discovered under a channel. `url` may be absent: such a video
/// cannot be downloaded, which is a valid terminal state, not an error.
pub struct VideoStub {
    pub id: String,
    pub title: String,
    pub url: Option<String>,
}

/// Mathematical image of a [`VideoStub`].
pub ghost struct StubView {
    pub id: Seq<char>,
    pub title: Seq<char>,
    pub url: Option<Seq<char>>,
}

impl View for VideoStub {
    type V = StubView;

    open spec fn view(&self) -> StubView {
        StubView {
            id: self.id@,
            title: self.title@,
            url: match self.url {
                Some(u) => Some(u@),
                None => None,
            },
        }
    }
}

/// One unit of pipeline work: a video awaiting download, tagged with the
/// identifier of the channel it was discovered under.
pub struct WorkItem {
    pub channel_id: String,
    pub video: VideoStub,
}

/// Mathematical image of a [`WorkItem`].
pub ghost struct ItemView {
    pub channel_id: Seq<char>,
    pub video: StubView,
}

impl View for WorkItem {
    type V = ItemView;

    open spec fn view(&self) -> ItemView {
        ItemView { channel_id: self.channel_id@, video: self.video@ }
    }
}

/// What the external listing service reported for a channel: a playlist
/// view (whose entry list may be missing), or something else entirely.
pub enum ListingOutcome {
    Playlist(Option<Vec<VideoStub>>),
    NotPlaylist,
}

/// Mathematical image of a [`ListingOutcome`].
pub ghost enum ListingView {
    Playlist(Option<Seq<StubView>>),
    NotPlaylist,
}

impl View for ListingOutcome {
    type V = ListingView;

    open spec fn view(&self) -> ListingView {
        match self {
            ListingOutcome::Playlist(Some(vs)) => ListingView::Playlist(
                Some(vs@.map_values(|v: VideoStub| v@)),
            ),
            ListingOutcome::Playlist(None) => ListingView::Playlist(None),
            ListingOutcome::NotPlaylist => ListingView::NotPlaylist,
        }
    }
}

/// The external listing call failed at the transport level; only the
/// affected channel's producer terminates on it.
pub struct EnumerationError {
    pub message: String,
}

/// The work items a channel with identifier `cid` contributes for listing
/// `lv`: one per playlist entry, in listing order; none otherwise.
pub open spec fn spec_items_for(cid: Seq<char>, lv: ListingView) -> Seq<ItemView> {
    match lv {
        ListingView::Playlist(Some(vs)) => vs.map_values(
            |v: StubView| ItemView { channel_id: cid, video: v },
        ),
        _ => Seq::empty(),
    }
}

/// The work items a channel contributes given its URL and the result of
/// its enumeration: none when the URL is malformed or the listing failed.
pub open spec fn spec_channel_items(
    url: Seq<char>,
    listing: Result<ListingView, Seq<char>>,
) -> Seq<ItemView> {
    match spec_channel_id(url) {
        None => Seq::empty(),
        Some(cid) => match listing {
            Err(_) => Seq::empty(),
            Ok(lv) => spec_items_for(cid, lv),
        },
    }
}

/// Turns an enumeration result into the channel's work items: one item per
/// entry of a non-empty playlist, each carrying the channel's identifier;
/// an empty sequence when the listing is not a playlist or has no entries.
pub fn collect_work_items(channel_id: &str, listing: &ListingOutcome) -> (items: Vec<WorkItem>)
    ensures
        items@.map_values(|it: WorkItem| it@) == spec_items_for(channel_id@, listing@),
        match listing@ {
            ListingView::Playlist(Some(vs)) => items@.len() == vs.len(),
            _ => items@.len() == 0,
        },
{
    match listing {
        ListingOutcome::Playlist(Some(vs)) => {
            let ghost gvs = vs@.map_values(|v: VideoStub| v@);
            let mut items: Vec<WorkItem> = Vec::new();
            let mut i: usize = 0;
            let n = vs.len();
            while i < n
                invariant
                    i <= n,
                    n == vs@.len(),
                    gvs == vs@.map_values(|v: VideoStub| v@),
                    items@.map_values(|it: WorkItem| it@) =~= spec_items_for(
                        channel_id@,
                        ListingView::Playlist(Some(gvs)),
                    ).take(i as int),
                decreases n - i,
            {
                let video = vs[i].clone_stub();
                let item = WorkItem { channel_id: string_of(channel_id), video };
                proof {
                    let full = spec_items_for(channel_id@, ListingView::Playlist(Some(gvs)));
                    assert(item@.video == gvs[i as int]);
                    assert(item@ == full[i as int]);
                    assert(full.take(i as int + 1) =~= full.take(i as int).push(full[i as int]));
                }
                items.push(item);
                i = i + 1;
            }
            proof {
                let full = spec_items_for(channel_id@, ListingView::Playlist(Some(gvs)));
                assert(full.take(n as int) =~= full);
                assert(items@.map_values(|it: WorkItem| it@) =~= full);
            }
            items
        },
        ListingOutcome::Playlist(None) => Vec::new(),
        ListingOutcome::NotPlaylist => Vec::new(),
    }
}

impl WorkItem {
    /// A copy of this work item with the same channel identifier and stub.
    pub fn clone_item(&self) -> (r: WorkItem)
        ensures
            r@ == self@,
    {
        WorkItem { channel_id: self.channel_id.clone(), video: self.video.clone_stub() }
    }
}

impl VideoStub {
    /// A copy of this stub with the same identifier, title and URL.
    pub fn clone_stub(&self) -> (r: VideoStub)
        ensures
            r@ == self@,
    {
        VideoStub {
            id: self.id.clone(),
            title: self.title.clone(),
            url: match &self.url {
                Some(u) => Some(u.clone()),
                None => None,
            },
        }
    }
}

/// An owned copy of a borrowed string slice.
pub fn string_of(s: &str) -> (r: String)
    ensures
        r@ == s@,
{
    String::from_str(s)
}

} // verus!
