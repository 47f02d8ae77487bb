//! The guarantees of the pipeline as a whole, proved over its model: what
//! the queue receives, when ledgers come into being, that ledgers only
//! grow, how a malformed channel is contained, and that a second run over
//! an unchanged catalog downloads nothing anew.

use vstd::prelude::*;
use vstd::seq_lib::*;
use crate::identity::spec_channel_id;
use crate::items::{spec_channel_items, ItemView, ListingView};
use crate::pipeline::{
    oracle_at, spec_drain, spec_produce, spec_run, DrainState, SpecSummary,
};

verus! {

/// How many of these items carry a video URL (and so reach the tool).
pub open spec fn count_with_url(items: Seq<ItemView>) -> nat
    decreases items.len(),
{
    if items.len() == 0 {
        0
    } else {
        count_with_url(items.drop_last()) + if items.last().video.url is Some {
            1nat
        } else {
            0nat
        }
    }
}

/// For every channel, the queue receives exactly as many work items as its
/// enumeration returned videos: one per entry of a playlist, and none at
/// all when the URL is malformed, the listing failed, the result is not a
/// playlist, or the playlist has no entry list.
pub proof fn lemma_queue_receives_channel_items(
    url: Seq<char>,
    listing: Result<ListingView, Seq<char>>,
)
    ensures
        spec_channel_id(url) is None ==> spec_channel_items(url, listing).len() == 0,
        listing is Err ==> spec_channel_items(url, listing).len() == 0,
        spec_channel_id(url) is Some ==> match listing {
            Ok(ListingView::Playlist(Some(vs))) => spec_channel_items(url, listing).len()
                == vs.len(),
            _ => spec_channel_items(url, listing).len() == 0,
        },
{
}

/// The producing stage only counts channels and fills the queue: the
/// worker-side tallies stay zero, every producer completes, and the
/// enqueued count is the length of what the queue received.
pub proof fn lemma_produce_counts(
    urls: Seq<Seq<char>>,
    listings: Seq<Result<ListingView, Seq<char>>>,
    ledgers: Map<Seq<char>, Seq<Seq<char>>>,
)
    requires
        urls.len() == listings.len(),
    ensures
        ({
            let p = spec_produce(urls, listings, ledgers);
            &&& p.summary.producers_completed == urls.len()
            &&& p.summary.malformed_channels + p.summary.enumeration_errors <= urls.len()
            &&& p.summary.enqueued == p.queued.len()
            &&& p.summary.processed == 0
            &&& p.summary.downloaded == 0
            &&& p.summary.already_seen == 0
            &&& p.summary.skipped_no_url == 0
            &&& p.summary.failed == 0
        }),
    decreases urls.len(),
{
    if urls.len() > 0 {
        lemma_produce_counts(urls.drop_last(), listings.drop_last(), ledgers);
    }
}

/// The producing stage leaves every pre-existing ledger exactly as it
/// found it, and holds a ledger for a channel identifier exactly when one
/// already existed or some channel with that identifier yielded at least
/// one work item: creation is lazy, at most once, and never for an empty
/// channel.
pub proof fn lemma_produce_ledgers(
    urls: Seq<Seq<char>>,
    listings: Seq<Result<ListingView, Seq<char>>>,
    ledgers: Map<Seq<char>, Seq<Seq<char>>>,
)
    requires
        urls.len() == listings.len(),
    ensures
        forall|c: Seq<char>|
            spec_produce(urls, listings, ledgers).ledgers.contains_key(c)
                ==> ledgers.contains_key(c) || exists|i: int|
                0 <= i < urls.len() && spec_channel_id(#[trigger] urls[i]) == Some(c)
                    && spec_channel_items(urls[i], listings[i]).len() > 0,
        forall|i: int|
            0 <= i < urls.len() && spec_channel_items(#[trigger] urls[i], listings[i]).len()
                > 0 ==> spec_channel_id(urls[i]) is Some && spec_produce(
                urls,
                listings,
                ledgers,
            ).ledgers.contains_key(spec_channel_id(urls[i])->Some_0),
        forall|c: Seq<char>|
            #[trigger] ledgers.contains_key(c) ==> spec_produce(
                urls,
                listings,
                ledgers,
            ).ledgers.contains_key(c) && spec_produce(urls, listings, ledgers).ledgers[c]
                == ledgers[c],
        forall|c: Seq<char>|
            #[trigger] spec_produce(urls, listings, ledgers).ledgers.contains_key(c)
                && !ledgers.contains_key(c) ==> spec_produce(
                urls,
                listings,
                ledgers,
            ).ledgers[c] == Seq::<Seq<char>>::empty(),
    decreases urls.len(),
{
    if urls.len() > 0 {
        lemma_produce_ledgers(urls.drop_last(), listings.drop_last(), ledgers);
        let len = urls.len() as int;
        let st = spec_produce(urls.drop_last(), listings.drop_last(), ledgers);
        let p = spec_produce(urls, listings, ledgers);
        let url = urls.last();
        let listing = listings.last();
        let items = spec_channel_items(url, listing);
        assert(urls[len - 1] == url);
        assert(listings[len - 1] == listing);
        assert(forall|i: int|
            0 <= i < len - 1 ==> urls.drop_last()[i] == #[trigger] urls[i]
                && listings.drop_last()[i] == listings[i]);
        assert(forall|c: Seq<char>|
            st.ledgers.contains_key(c) ==> p.ledgers.contains_key(c) && (
            p.ledgers[c] == st.ledgers[c]));
        assert forall|c: Seq<char>| p.ledgers.contains_key(c) implies ledgers.contains_key(c)
            || exists|i: int|
                0 <= i < urls.len() && spec_channel_id(#[trigger] urls[i]) == Some(c)
                    && spec_channel_items(urls[i], listings[i]).len() > 0 by {
            if !ledgers.contains_key(c) {
                if st.ledgers.contains_key(c) {
                    let i = choose|i: int|
                        0 <= i < len - 1 && spec_channel_id(
                            #[trigger] urls.drop_last()[i],
                        ) == Some(c) && spec_channel_items(
                            urls.drop_last()[i],
                            listings.drop_last()[i],
                        ).len() > 0;
                    assert(spec_channel_id(urls[i]) == Some(c) && spec_channel_items(
                        urls[i],
                        listings[i],
                    ).len() > 0);
                } else {
                    assert(spec_channel_id(url) is Some && items.len() > 0
                        && spec_channel_id(url) == Some(c));
                    assert(spec_channel_id(urls[len - 1]) == Some(c) && spec_channel_items(
                        urls[len - 1],
                        listings[len - 1],
                    ).len() > 0);
                }
            }
        }
        assert forall|i: int|
            0 <= i < urls.len() && spec_channel_items(#[trigger] urls[i], listings[i]).len()
                > 0 implies spec_channel_id(urls[i]) is Some && p.ledgers.contains_key(
            spec_channel_id(urls[i])->Some_0,
        ) by {
            if i < len - 1 {
                assert(spec_channel_items(urls.drop_last()[i], listings.drop_last()[i]).len()
                    > 0);
                assert(st.ledgers.contains_key(spec_channel_id(urls[i])->Some_0));
            } else {
                assert(spec_channel_id(url) is Some && items.len() > 0);
            }
        }
        assert forall|c: Seq<char>| ledgers.contains_key(c) implies p.ledgers.contains_key(c)
            && p.ledgers[c] == ledgers[c] by {
            assert(st.ledgers.contains_key(c) && st.ledgers[c] == ledgers[c]);
        }
        assert forall|c: Seq<char>|
            p.ledgers.contains_key(c) && !ledgers.contains_key(c) implies p.ledgers[c]
            == Seq::<Seq<char>>::empty() by {
            if st.ledgers.contains_key(c) {
                assert(st.ledgers[c] == Seq::<Seq<char>>::empty());
            }
        }
    }
}

/// The producing stage's queue content and tallies do not depend on the
/// ledgers it starts from: only which ledgers get created does.
pub proof fn lemma_produce_store_independent(
    urls: Seq<Seq<char>>,
    listings: Seq<Result<ListingView, Seq<char>>>,
    led_a: Map<Seq<char>, Seq<Seq<char>>>,
    led_b: Map<Seq<char>, Seq<Seq<char>>>,
)
    requires
        urls.len() == listings.len(),
    ensures
        spec_produce(urls, listings, led_a).summary == spec_produce(
            urls,
            listings,
            led_b,
        ).summary,
        spec_produce(urls, listings, led_a).queued == spec_produce(urls, listings, led_b).queued,
    decreases urls.len(),
{
    if urls.len() > 0 {
        lemma_produce_store_independent(urls.drop_last(), listings.drop_last(), led_a, led_b);
    }
}

/// When every channel that yields at least one work item already has its
/// ledger, the producing stage creates nothing: the ledgers pass through
/// unchanged.
pub proof fn lemma_produce_noop(
    urls: Seq<Seq<char>>,
    listings: Seq<Result<ListingView, Seq<char>>>,
    ledgers: Map<Seq<char>, Seq<Seq<char>>>,
)
    requires
        urls.len() == listings.len(),
        forall|i: int|
            0 <= i < urls.len() && spec_channel_items(#[trigger] urls[i], listings[i]).len() > 0
                ==> spec_channel_id(urls[i]) is Some && ledgers.contains_key(
                spec_channel_id(urls[i])->Some_0,
            ),
    ensures
        spec_produce(urls, listings, ledgers).ledgers == ledgers,
    decreases urls.len(),
{
    if urls.len() > 0 {
        assert(forall|i: int|
            0 <= i < urls.len() - 1 ==> urls.drop_last()[i] == #[trigger] urls[i]
                && listings.drop_last()[i] == listings[i]);
        lemma_produce_noop(urls.drop_last(), listings.drop_last(), ledgers);
        assert(urls[urls.len() - 1] == urls.last());
        assert(listings[urls.len() - 1] == listings.last());
    }
}

/// Draining settles exactly one outcome per item: every item is processed,
/// the tool is reached exactly by the items that carry a URL, and the
/// producer-side tallies stay untouched.
pub proof fn lemma_drain_counts(items: Seq<ItemView>, oracle: Seq<bool>, st: DrainState)
    ensures
        spec_drain(items, oracle, st).summary.processed == st.summary.processed + items.len(),
        spec_drain(items, oracle, st).summary.producers_completed
            == st.summary.producers_completed,
        spec_drain(items, oracle, st).summary.malformed_channels
            == st.summary.malformed_channels,
        spec_drain(items, oracle, st).summary.enumeration_errors
            == st.summary.enumeration_errors,
        spec_drain(items, oracle, st).summary.enqueued == st.summary.enqueued,
        spec_drain(items, oracle, st).summary.downloaded + spec_drain(
            items,
            oracle,
            st,
        ).summary.already_seen + spec_drain(items, oracle, st).summary.failed
            == st.summary.downloaded + st.summary.already_seen + st.summary.failed
            + count_with_url(items),
        spec_drain(items, oracle, st).summary.skipped_no_url + count_with_url(items)
            == st.summary.skipped_no_url + items.len(),
        spec_drain(items, oracle, st).summary.downloaded >= st.summary.downloaded,
        spec_drain(items, oracle, st).summary.already_seen >= st.summary.already_seen,
        spec_drain(items, oracle, st).summary.failed >= st.summary.failed,
        spec_drain(items, oracle, st).summary.skipped_no_url >= st.summary.skipped_no_url,
    decreases items.len(),
{
    if items.len() > 0 {
        lemma_drain_counts(items.drop_last(), oracle, st);
    }
}

/// Draining touches no ledger but by appending: it creates none, deletes
/// none, and every record a ledger held before is still there, at the same
/// place, afterwards.
pub proof fn lemma_drain_ledgers(items: Seq<ItemView>, oracle: Seq<bool>, st: DrainState)
    requires
        forall|t: int|
            0 <= t < items.len() ==> st.ledgers.contains_key(#[trigger] items[t].channel_id),
    ensures
        forall|c: Seq<char>|
            #[trigger] spec_drain(items, oracle, st).ledgers.contains_key(c)
                <==> st.ledgers.contains_key(c),
        forall|c: Seq<char>|
            #[trigger] st.ledgers.contains_key(c) ==> st.ledgers[c].len() <= spec_drain(
                items,
                oracle,
                st,
            ).ledgers[c].len(),
        forall|c: Seq<char>, j: int|
            st.ledgers.contains_key(c) && 0 <= j < st.ledgers[c].len() ==> #[trigger] spec_drain(
                items,
                oracle,
                st,
            ).ledgers[c][j] == st.ledgers[c][j],
        forall|c: Seq<char>, v: Seq<char>|
            st.ledgers.contains_key(c) && #[trigger] st.ledgers[c].contains(v) ==> spec_drain(
                items,
                oracle,
                st,
            ).ledgers[c].contains(v),
    decreases items.len(),
{
    if items.len() > 0 {
        assert(forall|t: int|
            0 <= t < items.len() - 1 ==> items.drop_last()[t] == #[trigger] items[t]);
        lemma_drain_ledgers(items.drop_last(), oracle, st);
        let d0 = spec_drain(items.drop_last(), oracle, st);
        let d1 = spec_drain(items, oracle, st);
        let item = items.last();
        assert(items[items.len() - 1] == item);
        assert(st.ledgers.contains_key(item.channel_id));
        assert(d0.ledgers.contains_key(item.channel_id));
        assert forall|c: Seq<char>, v: Seq<char>|
            d0.ledgers.contains_key(c) && #[trigger] d0.ledgers[c].contains(v) implies
            d1.ledgers[c].contains(v) by {
            if d1.ledgers[c] != d0.ledgers[c] {
                let k = choose|k: int| 0 <= k < d0.ledgers[c].len() && d0.ledgers[c][k] == v;
                assert(d1.ledgers[c][k] == v);
            }
        }
        assert forall|c: Seq<char>, j: int|
            st.ledgers.contains_key(c) && 0 <= j < st.ledgers[c].len() implies #[trigger] d1
            .ledgers[c][j] == st.ledgers[c][j] by {
            assert(d0.ledgers[c][j] == st.ledgers[c][j]);
        }
    }
}

/// After a drain that added no failure, every item that carries a URL is
/// recorded in its channel's ledger: it was either freshly downloaded (and
/// appended) or already recorded before.
pub proof fn lemma_drain_no_failures(items: Seq<ItemView>, oracle: Seq<bool>, st: DrainState)
    requires
        forall|t: int|
            0 <= t < items.len() ==> st.ledgers.contains_key(#[trigger] items[t].channel_id),
        spec_drain(items, oracle, st).summary.failed == st.summary.failed,
    ensures
        forall|t: int|
            0 <= t < items.len() && (#[trigger] items[t]).video.url is Some ==> spec_drain(
                items,
                oracle,
                st,
            ).ledgers.contains_key(items[t].channel_id) && spec_drain(
                items,
                oracle,
                st,
            ).ledgers[items[t].channel_id].contains(items[t].video.id),
    decreases items.len(),
{
    if items.len() > 0 {
        assert(forall|t: int|
            0 <= t < items.len() - 1 ==> items.drop_last()[t] == #[trigger] items[t]);
        let d0 = spec_drain(items.drop_last(), oracle, st);
        let d1 = spec_drain(items, oracle, st);
        let item = items.last();
        lemma_drain_counts(items.drop_last(), oracle, st);
        assert(d1.summary.failed >= d0.summary.failed);
        assert(d0.summary.failed == st.summary.failed);
        lemma_drain_no_failures(items.drop_last(), oracle, st);
        lemma_drain_ledgers(items.drop_last(), oracle, st);
        assert(d0.ledgers.contains_key(item.channel_id));
        if item.video.url is Some {
            assert(d1.ledgers.contains_key(item.channel_id) && d1.ledgers[item.channel_id]
                .contains(item.video.id)) by {
                if d0.ledgers[item.channel_id].contains(item.video.id) {
                } else {
                    assert(oracle_at(oracle, items.len() - 1));
                    let pushed = d0.ledgers[item.channel_id].push(item.video.id);
                    assert(pushed[pushed.len() - 1] == item.video.id);
                }
            }
        }
        assert forall|t: int|
            0 <= t < items.len() && (#[trigger] items[t]).video.url is Some implies d1
            .ledgers.contains_key(items[t].channel_id) && d1.ledgers[items[t].channel_id]
            .contains(items[t].video.id) by {
            if t < items.len() - 1 {
                assert(d0.ledgers.contains_key(items[t].channel_id) && d0.ledgers[items[t]
                    .channel_id].contains(items[t].video.id));
                if d1.ledgers[items[t].channel_id] != d0.ledgers[items[t].channel_id] {
                    let v = items[t].video.id;
                    let c = items[t].channel_id;
                    let k = choose|k: int|
                        0 <= k < d0.ledgers[c].len() && d0.ledgers[c][k] == v;
                    assert(d1.ledgers[c][k] == v);
                }
            }
        }
    }
}

/// A drain over items whose videos are all already recorded changes
/// nothing: every URL-carrying item is a successful no-op, nothing is
/// downloaded, nothing fails, and the ledgers stay exactly as they are.
pub proof fn lemma_drain_all_seen(items: Seq<ItemView>, oracle: Seq<bool>, st: DrainState)
    requires
        forall|t: int|
            0 <= t < items.len() ==> st.ledgers.contains_key(#[trigger] items[t].channel_id),
        forall|t: int|
            0 <= t < items.len() && (#[trigger] items[t]).video.url is Some
                ==> st.ledgers[items[t].channel_id].contains(items[t].video.id),
    ensures
        spec_drain(items, oracle, st).ledgers == st.ledgers,
        spec_drain(items, oracle, st).summary.downloaded == st.summary.downloaded,
        spec_drain(items, oracle, st).summary.failed == st.summary.failed,
        spec_drain(items, oracle, st).summary.already_seen == st.summary.already_seen
            + count_with_url(items),
        spec_drain(items, oracle, st).summary.skipped_no_url + count_with_url(items)
            == st.summary.skipped_no_url + items.len(),
        spec_drain(items, oracle, st).summary.processed == st.summary.processed + items.len(),
    decreases items.len(),
{
    if items.len() > 0 {
        assert(forall|t: int|
            0 <= t < items.len() - 1 ==> items.drop_last()[t] == #[trigger] items[t]);
        lemma_drain_all_seen(items.drop_last(), oracle, st);
        assert(items[items.len() - 1] == items.last());
    }
}

/// A run always terminates with the queue drained dry: every producer
/// completed exactly once, and the workers processed exactly what the
/// queue received — nothing is left pending and nothing is lost when the
/// queue closes.
pub proof fn lemma_run_drains_everything(
    urls: Seq<Seq<char>>,
    listings: Seq<Result<ListingView, Seq<char>>>,
    oracle: Seq<bool>,
    led0: Map<Seq<char>, Seq<Seq<char>>>,
)
    requires
        urls.len() == listings.len(),
    ensures
        spec_run(urls, listings, oracle, led0).0.processed == spec_run(
            urls,
            listings,
            oracle,
            led0,
        ).0.enqueued,
        spec_run(urls, listings, oracle, led0).0.producers_completed == urls.len(),
{
    let p = spec_produce(urls, listings, led0);
    lemma_produce_counts(urls, listings, led0);
    lemma_drain_counts(p.queued, oracle, DrainState { summary: p.summary, ledgers: p.ledgers });
}

/// Over one full run, a channel's ledger is created only if some channel
/// with its identifier yielded at least one work item, it is created for
/// every channel that did, and a ledger that already existed is never
/// recreated or truncated: the old records are a prefix of the new ones.
pub proof fn lemma_ledger_lifecycle(
    urls: Seq<Seq<char>>,
    listings: Seq<Result<ListingView, Seq<char>>>,
    oracle: Seq<bool>,
    led0: Map<Seq<char>, Seq<Seq<char>>>,
)
    requires
        urls.len() == listings.len(),
    ensures
        forall|c: Seq<char>|
            spec_run(urls, listings, oracle, led0).1.contains_key(c) ==> led0.contains_key(c)
                || exists|i: int|
                0 <= i < urls.len() && spec_channel_id(#[trigger] urls[i]) == Some(c)
                    && spec_channel_items(urls[i], listings[i]).len() > 0,
        forall|i: int|
            0 <= i < urls.len() && spec_channel_items(#[trigger] urls[i], listings[i]).len()
                > 0 ==> spec_channel_id(urls[i]) is Some && spec_run(
                urls,
                listings,
                oracle,
                led0,
            ).1.contains_key(spec_channel_id(urls[i])->Some_0),
        forall|c: Seq<char>|
            #[trigger] led0.contains_key(c) ==> led0[c].is_prefix_of(
                spec_run(urls, listings, oracle, led0).1[c],
            ),
{
    let p = spec_produce(urls, listings, led0);
    let st = DrainState { summary: p.summary, ledgers: p.ledgers };
    let d = spec_drain(p.queued, oracle, st);
    lemma_produce_ledgers(urls, listings, led0);
    crate::pipeline::lemma_produce_items_have_ledgers(urls, listings, led0);
    lemma_drain_ledgers(p.queued, oracle, st);
    assert(spec_run(urls, listings, oracle, led0).1 == d.ledgers);
    assert forall|c: Seq<char>| d.ledgers.contains_key(c) implies led0.contains_key(c)
        || exists|i: int|
            0 <= i < urls.len() && spec_channel_id(#[trigger] urls[i]) == Some(c)
                && spec_channel_items(urls[i], listings[i]).len() > 0 by {
        assert(st.ledgers.contains_key(c));
    }
    assert forall|i: int|
        0 <= i < urls.len() && spec_channel_items(#[trigger] urls[i], listings[i]).len()
            > 0 implies spec_channel_id(urls[i]) is Some && d.ledgers.contains_key(
        spec_channel_id(urls[i])->Some_0,
    ) by {
        assert(p.ledgers.contains_key(spec_channel_id(urls[i])->Some_0));
        assert(st.ledgers.contains_key(spec_channel_id(urls[i])->Some_0));
    }
    assert forall|c: Seq<char>| #[trigger] led0.contains_key(c) implies led0[c].is_prefix_of(
        d.ledgers[c],
    ) by {
        assert(p.ledgers.contains_key(c) && p.ledgers[c] == led0[c]);
        assert(st.ledgers.contains_key(c));
        assert(st.ledgers[c].len() <= d.ledgers[c].len());
        assert forall|j: int| 0 <= j < led0[c].len() implies d.ledgers[c][j]
            == led0[c][j] by {
            assert(spec_drain(p.queued, oracle, st).ledgers[c][j] == st.ledgers[c][j]);
        }
        assert(led0[c] =~= d.ledgers[c].subrange(0, led0[c].len() as int));
    }
}

/// Idempotence of the whole pipeline: after a run with no genuine
/// failures, a second run over the unchanged catalog downloads nothing,
/// fails nothing, sees every URL-carrying item as already recorded, and
/// leaves every ledger byte-for-byte as the first run left it.
pub proof fn lemma_rerun_is_idempotent(
    urls: Seq<Seq<char>>,
    listings: Seq<Result<ListingView, Seq<char>>>,
    oracle1: Seq<bool>,
    oracle2: Seq<bool>,
    led0: Map<Seq<char>, Seq<Seq<char>>>,
)
    requires
        urls.len() == listings.len(),
        spec_run(urls, listings, oracle1, led0).0.failed == 0,
    ensures
        ({
            let r1 = spec_run(urls, listings, oracle1, led0);
            let r2 = spec_run(urls, listings, oracle2, r1.1);
            &&& r2.0.downloaded == 0
            &&& r2.0.failed == 0
            &&& r2.0.already_seen == r1.0.downloaded + r1.0.already_seen
            &&& r2.0.skipped_no_url == r1.0.skipped_no_url
            &&& r2.0.enqueued == r1.0.enqueued
            &&& r2.0.processed == r1.0.processed
            &&& r2.1 == r1.1
        }),
{
    let p1 = spec_produce(urls, listings, led0);
    let st1 = DrainState { summary: p1.summary, ledgers: p1.ledgers };
    let d1 = spec_drain(p1.queued, oracle1, st1);
    let led1 = d1.ledgers;
    lemma_produce_counts(urls, listings, led0);
    crate::pipeline::lemma_produce_items_have_ledgers(urls, listings, led0);
    lemma_drain_counts(p1.queued, oracle1, st1);
    assert(d1.summary.failed == st1.summary.failed);
    lemma_drain_no_failures(p1.queued, oracle1, st1);
    lemma_drain_ledgers(p1.queued, oracle1, st1);
    let p2 = spec_produce(urls, listings, led1);
    lemma_produce_store_independent(urls, listings, led0, led1);
    lemma_produce_ledgers(urls, listings, led0);
    assert forall|i: int|
        0 <= i < urls.len() && spec_channel_items(#[trigger] urls[i], listings[i]).len()
            > 0 implies spec_channel_id(urls[i]) is Some && led1.contains_key(
        spec_channel_id(urls[i])->Some_0,
    ) by {
        assert(p1.ledgers.contains_key(spec_channel_id(urls[i])->Some_0));
        assert(st1.ledgers.contains_key(spec_channel_id(urls[i])->Some_0));
        assert(spec_drain(p1.queued, oracle1, st1).ledgers.contains_key(
            spec_channel_id(urls[i])->Some_0,
        ));
    }
    lemma_produce_noop(urls, listings, led1);
    assert(p2.ledgers == led1);
    assert(p2.queued == p1.queued && p2.summary == p1.summary);
    let st2 = DrainState { summary: p2.summary, ledgers: p2.ledgers };
    assert forall|t: int| 0 <= t < p1.queued.len() implies st2.ledgers.contains_key(
        #[trigger] p1.queued[t].channel_id,
    ) by {
        assert(st1.ledgers.contains_key(p1.queued[t].channel_id));
        assert(spec_drain(p1.queued, oracle1, st1).ledgers.contains_key(
            p1.queued[t].channel_id,
        ));
    }
    assert(forall|t: int|
        0 <= t < p1.queued.len() && (#[trigger] p1.queued[t]).video.url is Some
            ==> st2.ledgers[p1.queued[t].channel_id].contains(p1.queued[t].video.id));
    lemma_drain_all_seen(p1.queued, oracle2, st2);
    lemma_drain_counts(p1.queued, oracle2, st2);
}

/// The tallies a drain adds depend only on the items, the oracle and the
/// ledgers, never on the counts it starts from; and so do the ledgers it
/// leaves.
pub proof fn lemma_drain_summary_shift(
    items: Seq<ItemView>,
    oracle: Seq<bool>,
    st_a: DrainState,
    st_b: DrainState,
)
    requires
        st_a.ledgers == st_b.ledgers,
    ensures
        spec_drain(items, oracle, st_a).ledgers == spec_drain(items, oracle, st_b).ledgers,
        spec_drain(items, oracle, st_a).summary.producers_completed
            + st_b.summary.producers_completed == spec_drain(
            items,
            oracle,
            st_b,
        ).summary.producers_completed + st_a.summary.producers_completed,
        spec_drain(items, oracle, st_a).summary.malformed_channels
            + st_b.summary.malformed_channels == spec_drain(
            items,
            oracle,
            st_b,
        ).summary.malformed_channels + st_a.summary.malformed_channels,
        spec_drain(items, oracle, st_a).summary.enumeration_errors
            + st_b.summary.enumeration_errors == spec_drain(
            items,
            oracle,
            st_b,
        ).summary.enumeration_errors + st_a.summary.enumeration_errors,
        spec_drain(items, oracle, st_a).summary.enqueued + st_b.summary.enqueued
            == spec_drain(items, oracle, st_b).summary.enqueued + st_a.summary.enqueued,
        spec_drain(items, oracle, st_a).summary.processed + st_b.summary.processed
            == spec_drain(items, oracle, st_b).summary.processed + st_a.summary.processed,
        spec_drain(items, oracle, st_a).summary.downloaded + st_b.summary.downloaded
            == spec_drain(items, oracle, st_b).summary.downloaded + st_a.summary.downloaded,
        spec_drain(items, oracle, st_a).summary.already_seen + st_b.summary.already_seen
            == spec_drain(items, oracle, st_b).summary.already_seen
            + st_a.summary.already_seen,
        spec_drain(items, oracle, st_a).summary.skipped_no_url + st_b.summary.skipped_no_url
            == spec_drain(items, oracle, st_b).summary.skipped_no_url
            + st_a.summary.skipped_no_url,
        spec_drain(items, oracle, st_a).summary.failed + st_b.summary.failed == spec_drain(
            items,
            oracle,
            st_b,
        ).summary.failed + st_a.summary.failed,
    decreases items.len(),
{
    if items.len() > 0 {
        lemma_drain_summary_shift(items.drop_last(), oracle, st_a, st_b);
    }
}

/// A malformed channel URL is contained: the run behaves exactly as the
/// run without that channel — same queue traffic, same outcomes, same
/// ledgers — except that it reports one more malformed channel and one
/// more completed producer. In particular it blocks no other channel.
pub proof fn lemma_malformed_channel_contained(
    urls: Seq<Seq<char>>,
    listings: Seq<Result<ListingView, Seq<char>>>,
    oracle: Seq<bool>,
    led0: Map<Seq<char>, Seq<Seq<char>>>,
    i: int,
)
    requires
        urls.len() == listings.len(),
        0 <= i < urls.len(),
        spec_channel_id(urls[i]) is None,
    ensures
        ({
            let r = spec_run(urls, listings, oracle, led0);
            let rr = spec_run(urls.remove(i), listings.remove(i), oracle, led0);
            &&& r.1 == rr.1
            &&& r.0.malformed_channels == rr.0.malformed_channels + 1
            &&& r.0.producers_completed == rr.0.producers_completed + 1
            &&& r.0.enumeration_errors == rr.0.enumeration_errors
            &&& r.0.enqueued == rr.0.enqueued
            &&& r.0.processed == rr.0.processed
            &&& r.0.downloaded == rr.0.downloaded
            &&& r.0.already_seen == rr.0.already_seen
            &&& r.0.skipped_no_url == rr.0.skipped_no_url
            &&& r.0.failed == rr.0.failed
        }),
{
    lemma_produce_remove_malformed(urls, listings, led0, i);
    let p = spec_produce(urls, listings, led0);
    let pr = spec_produce(urls.remove(i), listings.remove(i), led0);
    lemma_drain_summary_shift(
        p.queued,
        oracle,
        DrainState { summary: p.summary, ledgers: p.ledgers },
        DrainState { summary: pr.summary, ledgers: pr.ledgers },
    );
}

/// Removing a malformed channel from the channel list changes the
/// producing stage only by one malformed-channel report and one completed
/// producer.
pub proof fn lemma_produce_remove_malformed(
    urls: Seq<Seq<char>>,
    listings: Seq<Result<ListingView, Seq<char>>>,
    led0: Map<Seq<char>, Seq<Seq<char>>>,
    i: int,
)
    requires
        urls.len() == listings.len(),
        0 <= i < urls.len(),
        spec_channel_id(urls[i]) is None,
    ensures
        spec_produce(urls.remove(i), listings.remove(i), led0).queued == spec_produce(
            urls,
            listings,
            led0,
        ).queued,
        spec_produce(urls.remove(i), listings.remove(i), led0).ledgers == spec_produce(
            urls,
            listings,
            led0,
        ).ledgers,
        spec_produce(urls, listings, led0).summary == (SpecSummary {
            malformed_channels: spec_produce(
                urls.remove(i),
                listings.remove(i),
                led0,
            ).summary.malformed_channels + 1,
            producers_completed: spec_produce(
                urls.remove(i),
                listings.remove(i),
                led0,
            ).summary.producers_completed + 1,
            ..spec_produce(urls.remove(i), listings.remove(i), led0).summary
        }),
    decreases urls.len(),
{
    let len = urls.len() as int;
    urls.remove_ensures(i);
    listings.remove_ensures(i);
    if i == len - 1 {
        assert(urls.remove(i) =~= urls.drop_last());
        assert(listings.remove(i) =~= listings.drop_last());
    } else {
        lemma_produce_remove_malformed(urls.drop_last(), listings.drop_last(), led0, i);
        urls.drop_last().remove_ensures(i);
        listings.drop_last().remove_ensures(i);
        assert(urls.remove(i).drop_last() =~= urls.drop_last().remove(i));
        assert(listings.remove(i).drop_last() =~= listings.drop_last().remove(i));
        assert(urls.remove(i).last() == urls.last());
        assert(listings.remove(i).last() == listings.last());
    }
}

} // verus!
