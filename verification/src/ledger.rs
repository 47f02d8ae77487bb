//! The archive ledgers: one per-channel, append-only record of the videos
//! already downloaded, keyed by channel identifier. The store models the
//! durable ledger files; creation is lazy and idempotent, entries are only
//! ever appended, and a ledger is never deleted.

use vstd::prelude::*;
use crate::items::string_of;

verus! {

/// The ledger of one channel: its identifier and the recorded video ids.
pub struct LedgerEntry {
    pub channel_id: String,
    pub recorded: Vec<String>,
}

/// All ledgers known to one run, keyed by channel identifier.
pub struct LedgerStore {
    entries: Vec<LedgerEntry>,
}

/// The recorded video identifiers of one ledger, as a sequence.
pub open spec fn recorded_view(s: Seq<String>) -> Seq<Seq<char>> {
    s.map_values(|v: String| v@)
}

/// The map an entry list denotes: later entries shadow earlier ones
/// (well-formed stores have no two entries with one identifier).
pub open spec fn ledger_map(s: Seq<LedgerEntry>) -> Map<Seq<char>, Seq<Seq<char>>>
    decreases s.len(),
{
    if s.len() == 0 {
        Map::empty()
    } else {
        ledger_map(s.drop_last()).insert(
            s.last().channel_id@,
            recorded_view(s.last().recorded@),
        )
    }
}

/// Lazy creation: a missing ledger is created empty, an existing one is
/// left exactly as it is.
pub open spec fn spec_ensure_ledger(
    m: Map<Seq<char>, Seq<Seq<char>>>,
    cid: Seq<char>,
) -> Map<Seq<char>, Seq<Seq<char>>> {
    if m.contains_key(cid) {
        m
    } else {
        m.insert(cid, Seq::empty())
    }
}

impl View for LedgerStore {
    type V = Map<Seq<char>, Seq<Seq<char>>>;

    closed spec fn view(&self) -> Map<Seq<char>, Seq<Seq<char>>> {
        ledger_map(self.entries@)
    }
}

proof fn lemma_ledger_map_dom(s: Seq<LedgerEntry>, cid: Seq<char>)
    ensures
        ledger_map(s).contains_key(cid) <==> exists|i: int|
            0 <= i < s.len() && s[i].channel_id@ == cid,
    decreases s.len(),
{
    if s.len() > 0 {
        lemma_ledger_map_dom(s.drop_last(), cid);
        if s.last().channel_id@ == cid {
            assert(s[s.len() - 1].channel_id@ == cid);
        } else if ledger_map(s).contains_key(cid) {
            let i = choose|i: int| 0 <= i < s.len() - 1 && s.drop_last()[i].channel_id@ == cid;
            assert(s[i].channel_id@ == cid);
        } else if exists|i: int| 0 <= i < s.len() && s[i].channel_id@ == cid {
            let i = choose|i: int| 0 <= i < s.len() && s[i].channel_id@ == cid;
            assert(s.drop_last()[i].channel_id@ == cid);
        }
    }
}

proof fn lemma_ledger_map_index(s: Seq<LedgerEntry>, i: int)
    requires
        wf_entries(s),
        0 <= i < s.len(),
    ensures
        ledger_map(s).contains_key(s[i].channel_id@),
        ledger_map(s)[s[i].channel_id@] == recorded_view(s[i].recorded@),
    decreases s.len(),
{
    lemma_ledger_map_dom(s, s[i].channel_id@);
    if i < s.len() - 1 {
        assert(wf_entries(s.drop_last())) by {
            assert(forall|x: int, y: int|
                0 <= x < y < s.len() - 1 ==> s.drop_last()[x] == s[x] && s.drop_last()[y] == s[y]);
        }
        assert(s.drop_last()[i] == s[i]);
        lemma_ledger_map_index(s.drop_last(), i);
        assert(s[i].channel_id@ != s.last().channel_id@);
    }
}

/// No two entries share a channel identifier.
pub open spec fn wf_entries(s: Seq<LedgerEntry>) -> bool {
    forall|i: int, j: int|
        0 <= i < j < s.len() ==> s[i].channel_id@ != s[j].channel_id@
}

impl LedgerStore {
    /// A well-formed store keeps at most one ledger per channel.
    pub closed spec fn wf(&self) -> bool {
        wf_entries(self.entries@)
    }

    /// A store with no ledgers at all.
    pub fn new() -> (r: LedgerStore)
        ensures
            r.wf(),
            r@ == Map::<Seq<char>, Seq<Seq<char>>>::empty(),
    {
        LedgerStore { entries: Vec::new() }
    }

    fn find(&self, cid: &String) -> (r: Option<usize>)
        requires
            self.wf(),
        ensures
            match r {
                Some(i) => i < self.entries@.len() && self.entries@[i as int].channel_id@ == cid@,
                None => !self@.contains_key(cid@),
            },
    {
        proof {
            lemma_ledger_map_dom(self.entries@, cid@);
        }
        let n = self.entries.len();
        let mut i: usize = 0;
        while i < n
            invariant
                i <= n,
                n == self.entries@.len(),
                forall|j: int| 0 <= j < i ==> self.entries@[j].channel_id@ != cid@,
            decreases n - i,
        {
            if self.entries[i].channel_id == *cid {
                return Some(i);
            }
            i = i + 1;
        }
        None
    }

    /// Whether a ledger exists for the channel.
    pub fn has_ledger(&self, cid: &str) -> (b: bool)
        requires
            self.wf(),
        ensures
            b == self@.contains_key(cid@),
    {
        let key = string_of(cid);
        match self.find(&key) {
            Some(i) => {
                proof {
                    lemma_ledger_map_index(self.entries@, i as int);
                }
                true
            },
            None => false,
        }
    }

    /// How many videos the channel's ledger records, if it exists.
    pub fn ledger_size(&self, cid: &str) -> (r: Option<usize>)
        requires
            self.wf(),
        ensures
            match r {
                Some(n) => self@.contains_key(cid@) && self@[cid@].len() == n,
                None => !self@.contains_key(cid@),
            },
    {
        let key = string_of(cid);
        match self.find(&key) {
            Some(i) => {
                proof {
                    lemma_ledger_map_index(self.entries@, i as int);
                }
                Some(self.entries[i].recorded.len())
            },
            None => None,
        }
    }

    /// Creates the channel's ledger, empty, unless it already exists;
    /// calling it a second time is a no-op. Returns whether it created.
    pub fn ensure_exists(&mut self, cid: &str) -> (created: bool)
        requires
            old(self).wf(),
        ensures
            final(self).wf(),
            final(self)@ == spec_ensure_ledger(old(self)@, cid@),
            created == !old(self)@.contains_key(cid@),
    {
        let key = string_of(cid);
        match self.find(&key) {
            Some(i) => {
                proof {
                    lemma_ledger_map_index(self.entries@, i as int);
                }
                false
            },
            None => {
                proof {
                    lemma_ledger_map_dom(self.entries@, cid@);
                }
                self.entries.push(LedgerEntry { channel_id: key, recorded: Vec::new() });
                proof {
                    let s = self.entries@;
                    assert(s.drop_last() =~= old(self).entries@);
                    assert(recorded_view(s.last().recorded@) =~= Seq::<Seq<char>>::empty());
                    assert(forall|i: int, j: int|
                        0 <= i < j < s.len() ==> s[i].channel_id@ != s[j].channel_id@) by {
                        assert(forall|i: int|
                            0 <= i < s.len() - 1 ==> s[i] == old(self).entries@[i]);
                    }
                }
                true
            },
        }
    }

    /// Whether the channel's ledger exists and records the video.
    pub fn contains_video(&self, cid: &str, vid: &str) -> (b: bool)
        requires
            self.wf(),
        ensures
            b == (self@.contains_key(cid@) && self@[cid@].contains(vid@)),
    {
        let key = string_of(cid);
        match self.find(&key) {
            Some(i) => {
                proof {
                    lemma_ledger_map_index(self.entries@, i as int);
                }
                let rec = &self.entries[i].recorded;
                let target = string_of(vid);
                let n = rec.len();
                let mut j: usize = 0;
                while j < n
                    invariant
                        j <= n,
                        n == rec@.len(),
                        target@ == vid@,
                        self@.contains_key(cid@),
                        self@[cid@] == recorded_view(rec@),
                        forall|k: int| 0 <= k < j ==> rec@[k]@ != vid@,
                    decreases n - j,
                {
                    if rec[j] == target {
                        proof {
                            assert(self@[cid@].contains(vid@)) by {
                                assert(self@[cid@][j as int] == vid@);
                                assert(0 <= j < self@[cid@].len());
                            }
                        }
                        return true;
                    }
                    j = j + 1;
                }
                proof {
                    if recorded_view(rec@).contains(vid@) {
                        let k = choose|k: int|
                            0 <= k < rec@.len() && recorded_view(rec@)[k] == vid@;
                        assert(rec@[k]@ == vid@);
                    }
                }
                false
            },
            None => false,
        }
    }

    /// Appends a video identifier to the channel's existing ledger; the
    /// ledger is append-only, so every earlier record stays in place.
    pub fn record(&mut self, cid: &str, vid: &str)
        requires
            old(self).wf(),
            old(self)@.contains_key(cid@),
        ensures
            final(self).wf(),
            final(self)@ == old(self)@.insert(cid@, old(self)@[cid@].push(vid@)),
    {
        let key = string_of(cid);
        let found = self.find(&key);
        proof {
            lemma_ledger_map_dom(self.entries@, cid@);
        }
        match found {
            Some(i) => {
                proof {
                    lemma_ledger_map_index(self.entries@, i as int);
                }
                let mut entry = self.entries.remove(i);
                entry.recorded.push(string_of(vid));
                self.entries.insert(i, entry);
                proof {
                    let s0 = old(self).entries@;
                    let s1 = self.entries@;
                    assert(s1 =~= s0.update(i as int, s1[i as int]));
                    assert(s1[i as int].channel_id@ == cid@);
                    assert(recorded_view(s1[i as int].recorded@) =~= recorded_view(
                        s0[i as int].recorded@,
                    ).push(vid@));
                    assert(wf_entries(s1)) by {
                        assert(forall|x: int|
                            0 <= x < s1.len() && x != i ==> s1[x] == s0[x]);
                    }
                    lemma_ledger_map_update(s0, i as int, s1[i as int]);
                    assert(self@ =~= old(self)@.insert(cid@, old(self)@[cid@].push(vid@)));
                }
            },
            None => {
                proof {
                    assert(false);
                }
            },
        }
    }
}

proof fn lemma_ledger_map_update(s: Seq<LedgerEntry>, i: int, e: LedgerEntry)
    requires
        wf_entries(s),
        0 <= i < s.len(),
        e.channel_id@ == s[i].channel_id@,
    ensures
        ledger_map(s.update(i, e)) == ledger_map(s).insert(
            e.channel_id@,
            recorded_view(e.recorded@),
        ),
    decreases s.len(),
{
    let su = s.update(i, e);
    if i == s.len() - 1 {
        assert(su.drop_last() =~= s.drop_last());
        assert(su.last() == e);
        assert(ledger_map(su) =~= ledger_map(s).insert(
            e.channel_id@,
            recorded_view(e.recorded@),
        ));
    } else {
        assert(wf_entries(s.drop_last())) by {
            assert(forall|x: int, y: int|
                0 <= x < y < s.len() - 1 ==> s.drop_last()[x] == s[x] && s.drop_last()[y] == s[y]);
        }
        assert(s.drop_last()[i] == s[i]);
        lemma_ledger_map_update(s.drop_last(), i, e);
        assert(su.drop_last() =~= s.drop_last().update(i, e));
        assert(su.last() == s.last());
        assert(e.channel_id@ != s.last().channel_id@);
        assert(ledger_map(su) =~= ledger_map(s).insert(
            e.channel_id@,
            recorded_view(e.recorded@),
        ));
    }
}

} // verus!
