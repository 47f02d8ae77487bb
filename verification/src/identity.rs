//! Channel identity: deriving a stable identifier from a channel URL, and
//! the deterministic archive-ledger path keyed by that identifier.

use vstd::prelude::*;
use vstd::string::*;

verus! {

/// A content source, identified by its URL.
pub struct Channel {
    pub url: String,
}

/// The configured URL has no extractable identifier.
#[derive(Debug)]
pub struct MalformedChannelUrlError {
    pub bad_url: String,
}

/// Length of `s` with every trailing path separator removed.
pub open spec fn trimmed_len(s: Seq<char>) -> int
    decreases s.len(),
{
    if s.len() == 0 {
        0
    } else if s.last() == '/' {
        trimmed_len(s.drop_last())
    } else {
        s.len() as int
    }
}

/// Start of the path segment that ends (exclusively) at `e`: the position
/// right after the last separator before `e`, or 0 if there is none.
pub open spec fn seg_start(s: Seq<char>, e: int) -> int
    decreases e,
{
    if e <= 0 {
        0
    } else if s[e - 1] == '/' {
        e
    } else {
        seg_start(s, e - 1)
    }
}

/// The channel identifier of a URL: its last non-empty path segment, or
/// `None` when every character is a separator (or the URL is empty).
pub open spec fn spec_channel_id(url: Seq<char>) -> Option<Seq<char>> {
    let e = trimmed_len(url);
    if e == 0 {
        None
    } else {
        Some(url.subrange(seg_start(url, e), e))
    }
}

pub proof fn lemma_trimmed_len_bounds(s: Seq<char>)
    ensures
        0 <= trimmed_len(s) <= s.len(),
        trimmed_len(s) > 0 ==> s[trimmed_len(s) - 1] != '/',
        forall|j: int| trimmed_len(s) <= j < s.len() ==> s[j] == '/',
    decreases s.len(),
{
    if s.len() == 0 {
    } else if s.last() == '/' {
        lemma_trimmed_len_bounds(s.drop_last());
        assert(forall|j: int| 0 <= j < s.len() - 1 ==> s[j] == s.drop_last()[j]);
    } else {
    }
}

pub proof fn lemma_seg_start_bounds(s: Seq<char>, e: int)
    requires
        0 <= e <= s.len(),
    ensures
        0 <= seg_start(s, e) <= e,
        forall|j: int| seg_start(s, e) <= j < e ==> s[j] != '/',
        seg_start(s, e) > 0 ==> s[seg_start(s, e) - 1] == '/',
    decreases e,
{
    if e <= 0 {
    } else if s[e - 1] == '/' {
    } else {
        lemma_seg_start_bounds(s, e - 1);
    }
}

/// A URL is malformed exactly when it has no non-separator character.
pub proof fn lemma_malformed_iff_all_separators(url: Seq<char>)
    ensures
        spec_channel_id(url) is None <==> (forall|j: int|
            0 <= j < url.len() ==> url[j] == '/'),
    decreases url.len(),
{
    lemma_trimmed_len_bounds(url);
    if url.len() > 0 && url.last() == '/' {
        lemma_malformed_iff_all_separators(url.drop_last());
        assert(forall|j: int| 0 <= j < url.len() - 1 ==> url[j] == url.drop_last()[j]);
    }
}

/// A derived identifier is non-empty and contains no separator.
pub proof fn lemma_channel_id_shape(url: Seq<char>)
    requires
        spec_channel_id(url) is Some,
    ensures
        spec_channel_id(url)->Some_0.len() > 0,
        forall|j: int|
            0 <= j < spec_channel_id(url)->Some_0.len()
                ==> spec_channel_id(url)->Some_0[j] != '/',
{
    let e = trimmed_len(url);
    lemma_trimmed_len_bounds(url);
    lemma_seg_start_bounds(url, e);
    let b = seg_start(url, e);
    assert(b < e) by {
        assert(url[e - 1] != '/');
    }
}

/// Derives the stable channel identifier from a channel's URL: the last
/// non-empty path segment. Fails when no such segment exists.
pub fn get_channel_id<'a>(channel: &'a Channel) -> (r: Result<
    &'a str,
    MalformedChannelUrlError,
>)
    ensures
        match r {
            Ok(id) => spec_channel_id(channel.url@) == Some(id@),
            Err(err) => spec_channel_id(channel.url@) is None && err.bad_url@ == channel.url@,
        },
{
    let s: &str = channel.url.as_str();
    let n: usize = s.unicode_len();
    let mut e: usize = n;
    proof {
        assert(s@.take(n as int) =~= s@);
    }
    while e > 0 && s.get_char(e - 1) == '/'
        invariant
            e <= n,
            n == s@.len(),
            s@ == channel.url@,
            trimmed_len(s@) == trimmed_len(s@.take(e as int)),
        decreases e,
    {
        proof {
            assert(s@.take(e as int).drop_last() =~= s@.take(e as int - 1));
            assert(s@.take(e as int).last() == s@[e as int - 1]);
        }
        e = e - 1;
    }
    proof {
        if e > 0 {
            assert(s@.take(e as int).last() == s@[e as int - 1]);
        }
        assert(trimmed_len(s@) == e as int);
    }
    if e == 0 {
        return Err(MalformedChannelUrlError { bad_url: channel.url.clone() });
    }
    let mut b: usize = e;
    while b > 0 && s.get_char(b - 1) != '/'
        invariant
            b <= e <= n,
            n == s@.len(),
            s@ == channel.url@,
            seg_start(s@, e as int) == seg_start(s@, b as int),
        decreases b,
    {
        b = b - 1;
    }
    proof {
        assert(seg_start(s@, e as int) == b as int);
    }
    Ok(s.substring_char(b, e))
}

/// The deterministic location of a channel's archive ledger.
pub open spec fn spec_archive_path(cid: Seq<char>) -> Seq<char> {
    "archives/"@ + cid + "/archive.txt"@
}

/// Computes the path of the archive ledger for a channel identifier.
pub fn make_archive_file_path(channel_id: &str) -> (r: String)
    ensures
        r@ == spec_archive_path(channel_id@),
{
    let mut r = String::from_str("archives/");
    r.append(channel_id);
    r.append("/archive.txt");
    proof {
        assert(r@ =~= spec_archive_path(channel_id@));
    }
    r
}

} // verus!
