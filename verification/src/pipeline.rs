//! The pipeline: producers enumerate channels and fill the queue, the
//! queue closes once every producer finished, workers drain it and settle
//! one outcome per item against the archive ledgers.
//!
//! [`spec_run`] is the mathematical model of one run; [`run_pipeline`] is
//! its verified sequential execution, used to exercise the model. The live
//! process runs the same decision functions concurrently: one producer
//! task per channel, a worker pool of fixed size; since workers are
//! symmetric and every per-item decision here depends only on the item and
//! its own channel's ledger, the summary counts do not depend on which
//! worker takes which item.

use vstd::prelude::*;
use crate::identity::{get_channel_id, spec_channel_id, Channel};
use crate::items::{
    collect_work_items, spec_channel_items, EnumerationError, ItemView, ListingOutcome,
    ListingView,
};
use crate::ledger::{spec_ensure_ledger, LedgerStore};
use crate::queue::WorkQueue;

verus! {

/// What one run reports once every producer and worker has finished.
/// Per-channel and per-item errors are contained and counted here; none
/// of them is a process failure.
pub struct Summary {
    /// Producer tasks that ran to completion (success or error).
    pub producers_completed: usize,
    /// Channels skipped because their URL has no extractable identifier.
    pub malformed_channels: usize,
    /// Channels whose external listing call failed.
    pub enumeration_errors: usize,
    /// Work items the queue received.
    pub enqueued: usize,
    /// Work items the workers took off the queue.
    pub processed: usize,
    /// Items the external tool downloaded and recorded.
    pub downloaded: usize,
    /// Items whose video the ledger already recorded: successful no-ops.
    pub already_seen: usize,
    /// Items skipped because their stub carries no URL.
    pub skipped_no_url: usize,
    /// Items on which the external tool genuinely failed.
    pub failed: usize,
}

/// Mathematical image of a [`Summary`].
pub ghost struct SpecSummary {
    pub producers_completed: nat,
    pub malformed_channels: nat,
    pub enumeration_errors: nat,
    pub enqueued: nat,
    pub processed: nat,
    pub downloaded: nat,
    pub already_seen: nat,
    pub skipped_no_url: nat,
    pub failed: nat,
}

impl View for Summary {
    type V = SpecSummary;

    open spec fn view(&self) -> SpecSummary {
        SpecSummary {
            producers_completed: self.producers_completed as nat,
            malformed_channels: self.malformed_channels as nat,
            enumeration_errors: self.enumeration_errors as nat,
            enqueued: self.enqueued as nat,
            processed: self.processed as nat,
            downloaded: self.downloaded as nat,
            already_seen: self.already_seen as nat,
            skipped_no_url: self.skipped_no_url as nat,
            failed: self.failed as nat,
        }
    }
}

impl Summary {
    /// A summary with nothing counted yet.
    pub fn new() -> (s: Summary)
        ensures
            s@ == spec_empty_summary(),
    {
        Summary {
            producers_completed: 0,
            malformed_channels: 0,
            enumeration_errors: 0,
            enqueued: 0,
            processed: 0,
            downloaded: 0,
            already_seen: 0,
            skipped_no_url: 0,
            failed: 0,
        }
    }
}

pub open spec fn spec_empty_summary() -> SpecSummary {
    SpecSummary {
        producers_completed: 0,
        malformed_channels: 0,
        enumeration_errors: 0,
        enqueued: 0,
        processed: 0,
        downloaded: 0,
        already_seen: 0,
        skipped_no_url: 0,
        failed: 0,
    }
}

/// The state of a run while producers are filling the queue.
pub ghost struct ProduceState {
    pub summary: SpecSummary,
    pub queued: Seq<ItemView>,
    pub ledgers: Map<Seq<char>, Seq<Seq<char>>>,
}

/// The state of a run while workers are draining the queue.
pub ghost struct DrainState {
    pub summary: SpecSummary,
    pub ledgers: Map<Seq<char>, Seq<Seq<char>>>,
}

/// The URLs of a channel list.
pub open spec fn urls_view(channels: Seq<Channel>) -> Seq<Seq<char>> {
    channels.map_values(|c: Channel| c.url@)
}

/// The mathematical image of one channel's enumeration result.
pub open spec fn listing_view(r: Result<ListingOutcome, EnumerationError>) -> Result<
    ListingView,
    Seq<char>,
> {
    match r {
        Ok(o) => Ok(o@),
        Err(e) => Err(e.message@),
    }
}

/// The mathematical image of all enumeration results.
pub open spec fn listings_view(s: Seq<Result<ListingOutcome, EnumerationError>>) -> Seq<
    Result<ListingView, Seq<char>>,
> {
    s.map_values(|r: Result<ListingOutcome, EnumerationError>| listing_view(r))
}

/// One producer running to completion: a malformed URL or a failed listing
/// is counted and contained; otherwise the channel's ledger is created
/// (lazily, only when the channel yielded at least one item, and before
/// any item is enqueued) and the items go onto the queue in listing order.
pub open spec fn spec_producer_step(
    st: ProduceState,
    url: Seq<char>,
    listing: Result<ListingView, Seq<char>>,
) -> ProduceState {
    let items = spec_channel_items(url, listing);
    match spec_channel_id(url) {
        None => ProduceState {
            summary: SpecSummary {
                producers_completed: st.summary.producers_completed + 1,
                malformed_channels: st.summary.malformed_channels + 1,
                ..st.summary
            },
            ..st
        },
        Some(cid) => match listing {
            Err(_) => ProduceState {
                summary: SpecSummary {
                    producers_completed: st.summary.producers_completed + 1,
                    enumeration_errors: st.summary.enumeration_errors + 1,
                    ..st.summary
                },
                ..st
            },
            Ok(_) => ProduceState {
                summary: SpecSummary {
                    producers_completed: st.summary.producers_completed + 1,
                    enqueued: st.summary.enqueued + items.len(),
                    ..st.summary
                },
                queued: st.queued + items,
                ledgers: if items.len() > 0 {
                    spec_ensure_ledger(st.ledgers, cid)
                } else {
                    st.ledgers
                },
            },
        },
    }
}

/// The producing stage: every channel's producer runs to completion, in
/// order, starting from the ledgers left by earlier runs.
pub open spec fn spec_produce(
    urls: Seq<Seq<char>>,
    listings: Seq<Result<ListingView, Seq<char>>>,
    ledgers: Map<Seq<char>, Seq<Seq<char>>>,
) -> ProduceState
    decreases urls.len(),
{
    if urls.len() == 0 {
        ProduceState { summary: spec_empty_summary(), queued: Seq::empty(), ledgers }
    } else {
        spec_producer_step(
            spec_produce(urls.drop_last(), listings.drop_last(), ledgers),
            urls.last(),
            listings.last(),
        )
    }
}

/// Whether the external tool succeeds on the `i`-th drained item, were it
/// invoked for a video its channel's ledger does not record yet.
pub open spec fn oracle_at(oracle: Seq<bool>, i: int) -> bool {
    0 <= i < oracle.len() && oracle[i]
}

/// One worker settling one item: no URL means skipped; a video its
/// channel's ledger records is a successful no-op; otherwise the tool
/// downloads it (appending it to the ledger) or fails, and the failure is
/// contained to this item.
pub open spec fn spec_worker_step(st: DrainState, item: ItemView, success: bool) -> DrainState {
    match item.video.url {
        None => DrainState {
            summary: SpecSummary {
                processed: st.summary.processed + 1,
                skipped_no_url: st.summary.skipped_no_url + 1,
                ..st.summary
            },
            ..st
        },
        Some(_) => if st.ledgers.contains_key(item.channel_id)
            && st.ledgers[item.channel_id].contains(item.video.id) {
            DrainState {
                summary: SpecSummary {
                    processed: st.summary.processed + 1,
                    already_seen: st.summary.already_seen + 1,
                    ..st.summary
                },
                ..st
            }
        } else if success {
            DrainState {
                summary: SpecSummary {
                    processed: st.summary.processed + 1,
                    downloaded: st.summary.downloaded + 1,
                    ..st.summary
                },
                ledgers: st.ledgers.insert(
                    item.channel_id,
                    st.ledgers[item.channel_id].push(item.video.id),
                ),
            }
        } else {
            DrainState {
                summary: SpecSummary {
                    processed: st.summary.processed + 1,
                    failed: st.summary.failed + 1,
                    ..st.summary
                },
                ..st
            }
        },
    }
}

/// The consuming stage: the queue is drained to the last item; closing
/// the queue never discards work.
pub open spec fn spec_drain(items: Seq<ItemView>, oracle: Seq<bool>, st: DrainState) -> DrainState
    decreases items.len(),
{
    if items.len() == 0 {
        st
    } else {
        spec_worker_step(
            spec_drain(items.drop_last(), oracle, st),
            items.last(),
            oracle_at(oracle, items.len() - 1),
        )
    }
}

/// One full run: produce, close the queue, drain it dry. Returns the
/// summary and the ledgers the run leaves behind.
pub open spec fn spec_run(
    urls: Seq<Seq<char>>,
    listings: Seq<Result<ListingView, Seq<char>>>,
    oracle: Seq<bool>,
    ledgers: Map<Seq<char>, Seq<Seq<char>>>,
) -> (SpecSummary, Map<Seq<char>, Seq<Seq<char>>>) {
    let p = spec_produce(urls, listings, ledgers);
    let d = spec_drain(p.queued, oracle, DrainState { summary: p.summary, ledgers: p.ledgers });
    (d.summary, d.ledgers)
}

/// Every enqueued item's channel has its ledger by the time the producing
/// stage ends: a producer creates the ledger before emitting any item.
pub proof fn lemma_produce_items_have_ledgers(
    urls: Seq<Seq<char>>,
    listings: Seq<Result<ListingView, Seq<char>>>,
    ledgers: Map<Seq<char>, Seq<Seq<char>>>,
)
    requires
        urls.len() == listings.len(),
    ensures
        ({
            let p = spec_produce(urls, listings, ledgers);
            forall|t: int|
                0 <= t < p.queued.len() ==> p.ledgers.contains_key(#[trigger] p.queued[t].channel_id)
        }),
    decreases urls.len(),
{
    if urls.len() > 0 {
        lemma_produce_items_have_ledgers(urls.drop_last(), listings.drop_last(), ledgers);
        let st = spec_produce(urls.drop_last(), listings.drop_last(), ledgers);
        let p = spec_produce(urls, listings, ledgers);
        let url = urls.last();
        let listing = listings.last();
        let items = spec_channel_items(url, listing);
        match spec_channel_id(url) {
            None => {},
            Some(cid) => match listing {
                Err(_) => {},
                Ok(lv) => {
                    assert(forall|t: int|
                        0 <= t < items.len() ==> (#[trigger] items[t]).channel_id == cid);
                    assert(forall|t: int|
                        0 <= t < p.queued.len() ==> p.queued[t] == if t < st.queued.len() {
                            st.queued[t]
                        } else {
                            items[t - st.queued.len()]
                        });
                    if items.len() > 0 {
                        assert(p.ledgers.contains_key(cid));
                        assert(forall|c: Seq<char>|
                            st.ledgers.contains_key(c) ==> p.ledgers.contains_key(c));
                    }
                },
            },
        }
    }
}

/// Executes one full pipeline run against the model: spawns (in order) one
/// producer per configured channel with that channel's enumeration result,
/// closes the queue once all producers completed, then drains the queue to
/// the last item. `oracle` settles, per drained item, whether a genuinely
/// new download would succeed (an item beyond its end does not);
/// everything else the run decides itself.
pub fn run_pipeline(
    channels: &Vec<Channel>,
    listings: &Vec<Result<ListingOutcome, EnumerationError>>,
    oracle: &Vec<bool>,
    store: &mut LedgerStore,
) -> (s: Summary)
    requires
        channels@.len() == listings@.len(),
        old(store).wf(),
    ensures
        final(store).wf(),
        ({
            let (sum, led) = spec_run(
                urls_view(channels@),
                listings_view(listings@),
                oracle@,
                old(store)@,
            );
            s@ == sum && final(store)@ == led
        }),
        s.processed == s.enqueued,
        s.producers_completed == channels@.len(),
{
    let ghost urls = urls_view(channels@);
    let ghost lvs = listings_view(listings@);
    let ghost led0 = old(store)@;
    let mut q = WorkQueue::new();
    let mut summary = Summary::new();
    let n = channels.len();
    let mut i: usize = 0;
    proof {
        assert(urls.take(0) =~= Seq::<Seq<char>>::empty());
        assert(lvs.take(0) =~= Seq::<Result<ListingView, Seq<char>>>::empty());
    }
    while i < n
        invariant
            i <= n,
            n == channels@.len(),
            channels@.len() == listings@.len(),
            urls == urls_view(channels@),
            lvs == listings_view(listings@),
            store.wf(),
            !q.is_closed(),
            ({
                let p = spec_produce(urls.take(i as int), lvs.take(i as int), led0);
                summary@ == p.summary && q.pending() == p.queued && store@ == p.ledgers
            }),
            summary.producers_completed == i,
            summary.malformed_channels + summary.enumeration_errors <= i,
            summary.enqueued == q.pending().len(),
            summary.processed == 0,
            summary.downloaded == 0,
            summary.already_seen == 0,
            summary.skipped_no_url == 0,
            summary.failed == 0,
        decreases n - i,
    {
        proof {
            assert(urls.take(i as int + 1).drop_last() =~= urls.take(i as int));
            assert(lvs.take(i as int + 1).drop_last() =~= lvs.take(i as int));
            assert(urls.take(i as int + 1).last() == channels@[i as int].url@);
            assert(lvs.take(i as int + 1).last() == listing_view(listings@[i as int]));
        }
        let channel = &channels[i];
        match get_channel_id(channel) {
            Err(_bad) => {
                summary.malformed_channels = summary.malformed_channels + 1;
            },
            Ok(cid) => {
                match &listings[i] {
                    Err(_e) => {
                        summary.enumeration_errors = summary.enumeration_errors + 1;
                    },
                    Ok(listing) => {
                        let items = collect_work_items(cid, listing);
                        let ghost gitems = spec_channel_items(
                            urls[i as int],
                            lvs[i as int],
                        );
                        proof {
                            assert(items@.map_values(|it: crate::items::WorkItem| it@)
                                == gitems);
                        }
                        let count = items.len();
                        if count > 0 {
                            store.ensure_exists(cid);
                        }
                        let ghost pending0 = q.pending();
                        let mut j: usize = 0;
                        while j < count
                            invariant
                                j <= count,
                                count == items@.len(),
                                !q.is_closed(),
                                items@.map_values(|it: crate::items::WorkItem| it@) == gitems,
                                q.pending() == pending0 + gitems.take(j as int),
                            decreases count - j,
                        {
                            let item = items[j].clone_item();
                            q.push(item);
                            proof {
                                assert(pending0 + gitems.take(j as int + 1) =~= (pending0
                                    + gitems.take(j as int)).push(gitems[j as int]));
                            }
                            j = j + 1;
                        }
                        proof {
                            assert(gitems.take(count as int) =~= gitems);
                        }
                        let qn = q.len();
                        proof {
                            assert(summary.enqueued + count == qn);
                        }
                        summary.enqueued = summary.enqueued + count;
                    },
                }
            },
        }
        summary.producers_completed = summary.producers_completed + 1;
        i = i + 1;
        proof {
            let p0 = spec_produce(urls.take(i as int - 1), lvs.take(i as int - 1), led0);
            let p1 = spec_produce(urls.take(i as int), lvs.take(i as int), led0);
            assert(p1 == spec_producer_step(p0, urls[i as int - 1], lvs[i as int - 1]));
        }
    }
    proof {
        assert(urls.take(n as int) =~= urls);
        assert(lvs.take(n as int) =~= lvs);
    }
    q.close();
    let ghost pfinal = spec_produce(urls, lvs, led0);
    let ghost allitems = pfinal.queued;
    proof {
        lemma_produce_items_have_ledgers(urls, lvs, led0);
    }
    let mut k: usize = 0;
    while q.len() > 0
        invariant
            q.is_closed(),
            store.wf(),
            pfinal == spec_produce(urls, lvs, led0),
            allitems == pfinal.queued,
            k <= allitems.len(),
            q.pending() == allitems.skip(k as int),
            ({
                let d = spec_drain(
                    allitems.take(k as int),
                    oracle@,
                    DrainState { summary: pfinal.summary, ledgers: pfinal.ledgers },
                );
                summary@ == d.summary && store@ == d.ledgers
            }),
            forall|t: int|
                k <= t < allitems.len() ==> store@.contains_key(
                    #[trigger] allitems[t].channel_id,
                ),
            n == channels@.len(),
            summary.producers_completed == n,
            summary.enqueued == allitems.len(),
            summary.processed == k,
            summary.downloaded + summary.already_seen + summary.skipped_no_url
                + summary.failed == k,
        decreases q.pending().len(),
    {
        proof {
            assert(allitems.take(k as int + 1).drop_last() =~= allitems.take(k as int));
            assert(allitems.take(k as int + 1).last() == allitems[k as int]);
            assert(allitems.skip(k as int)[0] == allitems[k as int]);
        }
        let popped = q.pop();
        match popped {
            None => {
                proof {
                    assert(false);
                }
            },
            Some(item) => {
                proof {
                    assert(item@ == allitems[k as int]);
                    assert(allitems.skip(k as int).drop_first() =~= allitems.skip(
                        k as int + 1,
                    ));
                }
                match &item.video.url {
                    None => {
                        summary.skipped_no_url = summary.skipped_no_url + 1;
                    },
                    Some(_u) => {
                        let cid = item.channel_id.as_str();
                        let vid = item.video.id.as_str();
                        let success = if k < oracle.len() {
                            oracle[k]
                        } else {
                            false
                        };
                        if store.contains_video(cid, vid) {
                            summary.already_seen = summary.already_seen + 1;
                        } else if success {
                            proof {
                                assert(store@.contains_key(allitems[k as int].channel_id));
                                assert(cid@ == allitems[k as int].channel_id);
                            }
                            store.record(cid, vid);
                            summary.downloaded = summary.downloaded + 1;
                        } else {
                            summary.failed = summary.failed + 1;
                        }
                    },
                }
                summary.processed = summary.processed + 1;
                k = k + 1;
                proof {
                    let st0 = spec_drain(
                        allitems.take(k as int - 1),
                        oracle@,
                        DrainState { summary: pfinal.summary, ledgers: pfinal.ledgers },
                    );
                    let st1 = spec_drain(
                        allitems.take(k as int),
                        oracle@,
                        DrainState { summary: pfinal.summary, ledgers: pfinal.ledgers },
                    );
                    assert(st1 == spec_worker_step(
                        st0,
                        allitems[k as int - 1],
                        oracle_at(oracle@, k as int - 1),
                    ));
                    assert(forall|c: Seq<char>|
                        st0.ledgers.contains_key(c) ==> st1.ledgers.contains_key(c));
                }
            },
        }
    }
    proof {
        assert(allitems.skip(k as int).len() == 0);
        assert(k == allitems.len());
        assert(allitems.take(k as int) =~= allitems);
    }
    summary
}

} // verus!
