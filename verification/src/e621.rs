//! e621: pools, post metadata, and how raw API answers become metadata.
//!
//! The HTTP client (rate limiting, requests, JSON decoding) runs outside
//! the library; it hands over the decoded answers as the `Raw*` values
//! below, and everything the bot reads from them is computed here.

use vstd::prelude::*;
use crate::links::{path_segments, url_path_segments};
use crate::scheduler::spaced;
use crate::text::{
    chars_of, clone_strings, contains_string, decimal, lower, lowercase, parse_u64, parse_u64_spec,
    push_char, push_decimal, push_str, str_eq, views,
};

verus! {

/// How e621 groups a pool's posts: an ordered comic, or a loose
/// collection.
#[derive(Debug, Clone, Copy, PartialEq, Eq, Structural)]
pub enum E621PoolCategory {
    Series,
    Collection,
}

impl E621PoolCategory {
    /// Anything e621 does not call `series` is a collection.
    pub fn parse(s: &str) -> (c: E621PoolCategory)
        ensures
            c == (if s@ == "series"@ { E621PoolCategory::Series } else { E621PoolCategory::Collection }),
    {
        if str_eq(s, "series") {
            E621PoolCategory::Series
        } else {
            E621PoolCategory::Collection
        }
    }

    pub fn to_string(&self) -> (s: String)
        ensures
            s@ == (match self {
                E621PoolCategory::Series => "series"@,
                E621PoolCategory::Collection => "collection"@,
            }),
    {
        let mut s = String::new();
        match self {
            E621PoolCategory::Series => push_str(&mut s, "series"),
            E621PoolCategory::Collection => push_str(&mut s, "collection"),
        }
        s
    }
}

/// One e621 pool: member post ids in pool order.
#[derive(Debug, Clone)]
pub struct E621Pool {
    pub id: u64,
    /// Raw e621 name (words joined by underscores).
    pub name: String,
    pub category: E621PoolCategory,
    /// Every member post id, in pool order.
    pub post_ids: Vec<u64>,
    /// Inactive pools are abandoned or locked upstream.
    pub is_active: bool,
}

pub open spec fn pool_page_url(id: u64) -> Seq<char> {
    "https://e621.net/pools/"@ + decimal(id as nat)
}

impl E621Pool {
    /// The pool's name with underscores as spaces, for display.
    pub fn display_name(&self) -> (s: String)
        ensures
            s@ == spaced(self.name@),
    {
        let v = chars_of(self.name.as_str());
        let mut s = String::new();
        let mut k: usize = 0;
        while k < v.len()
            invariant
                k <= v.len(),
                v@ == self.name@,
                s@ == spaced(v@.take(k as int)),
            decreases v.len() - k,
        {
            let c = v[k];
            push_char(&mut s, if c == '_' { ' ' } else { c });
            assert(spaced(v@.take(k + 1)) =~= spaced(v@.take(k as int)).push(if c == '_' { ' ' } else { c }));
            k = k + 1;
        }
        assert(v@.take(v.len() as int) =~= v@);
        s
    }

    /// The pool's page on e621.
    pub fn page_url(&self) -> (s: String)
        ensures
            s@ == pool_page_url(self.id),
    {
        let mut s = String::new();
        push_str(&mut s, "https://e621.net/pools/");
        push_decimal(&mut s, self.id);
        s
    }
}

#[derive(Debug)]
pub enum FetchError {
    NotFound(String),
    /// Deleted or login-restricted.
    Unavailable(String),
    RateLimit,
    Network(String),
    Parse(String),
}

/// e621 API credentials, sent as HTTP Basic auth.
#[derive(Debug, Clone)]
pub struct E621Credentials {
    pub login: String,
    pub api_key: String,
}

/// Metadata of one e621 post.
#[derive(Debug)]
pub struct E621PostMetadata {
    pub source: String,
    pub tags: Vec<String>,
    /// Actual artists only; workflow markers are filtered out.
    pub artists: Vec<String>,
    pub file_url: String,
    /// A Telegram-compatible MP4 rendition, when e621 has one that fits.
    pub mp4_url: Option<String>,
    pub preview_url: String,
    pub artist_sources: Vec<String>,
    pub pools: Vec<u64>,
}

// ---------------------------------------------------------- raw shapes ----

/// A media rendition as e621 lists it.
#[derive(Debug, Clone)]
pub struct RawRendition {
    pub url: Option<String>,
    pub size: Option<u64>,
}

#[derive(Debug, Clone)]
pub struct RawAlternates {
    pub variants: Option<Vec<(String, RawRendition)>>,
    pub samples: Option<Vec<(String, RawRendition)>>,
}

#[derive(Debug, Clone)]
pub struct RawSample {
    pub url: Option<String>,
    pub alternates: Option<RawAlternates>,
}

/// The tag buckets of a post.
#[derive(Debug, Clone)]
pub struct RawTags {
    pub general: Vec<String>,
    pub species: Vec<String>,
    pub character: Vec<String>,
    pub copyright: Vec<String>,
    pub artist: Vec<String>,
    pub meta: Vec<String>,
    pub lore: Vec<String>,
    pub invalid: Vec<String>,
}

/// One post as the API answers.
#[derive(Debug, Clone)]
pub struct RawPost {
    pub id: u64,
    pub file_url: Option<String>,
    pub preview_url: Option<String>,
    pub sample: Option<RawSample>,
    pub tags: RawTags,
    pub sources: Vec<String>,
    pub pools: Vec<u64>,
}

/// One pool as the API answers.
#[derive(Debug, Clone)]
pub struct RawPool {
    pub id: u64,
    pub name: String,
    pub category: String,
    pub post_ids: Vec<u64>,
    pub is_active: bool,
}

impl RawPool {
    pub fn into_pool(self) -> (p: E621Pool)
        ensures
            p.id == self.id,
            p.name == self.name,
            p.category == (if self.category@ == "series"@ { E621PoolCategory::Series } else { E621PoolCategory::Collection }),
            p.post_ids == self.post_ids,
            p.is_active == self.is_active,
    {
        let category = E621PoolCategory::parse(self.category.as_str());
        E621Pool { id: self.id, name: self.name, category, post_ids: self.post_ids, is_active: self.is_active }
    }
}

// ------------------------------------------------------------ metadata ----

pub open spec fn post_source(id: u64) -> Seq<char> {
    "https://e621.net/posts/"@ + decimal(id as nat)
}

/// Entries e621 keeps in the artist bucket that are not artists.
pub open spec fn non_artist_tags() -> Seq<Seq<char>> {
    seq![
        "conditional_dnp"@,
        "avoid_posting"@,
        "unknown_artist"@,
        "unknown_artist_signature"@,
        "anonymous_artist"@,
        "third-party_edit"@,
        "sound_warning"@,
        "epilepsy_warning"@,
    ]
}

/// The artist bucket without the workflow markers (compared ASCII
/// case-insensitively).
pub open spec fn real_artists(bucket: Seq<Seq<char>>) -> Seq<Seq<char>>
    decreases bucket.len(),
{
    if bucket.len() == 0 {
        seq![]
    } else {
        let prev = real_artists(bucket.drop_last());
        if non_artist_tags().contains(lower(bucket.last())) { prev } else { prev.push(bucket.last()) }
    }
}

/// `r` is `b` with some entries left out, the rest in order: `idx` gives,
/// increasing, where each entry of `r` stands in `b`.
pub open spec fn sublist_by<A>(r: Seq<A>, b: Seq<A>, idx: Seq<int>) -> bool {
    &&& idx.len() == r.len()
    &&& forall|k: int| 0 <= k < r.len() ==> 0 <= #[trigger] idx[k] < b.len() && r[k] == b[idx[k]]
    &&& forall|k1: int, k2: int| 0 <= k1 < k2 < r.len() ==> idx[k1] < idx[k2]
}

pub open spec fn is_sublist<A>(r: Seq<A>, b: Seq<A>) -> bool {
    exists|idx: Seq<int>| sublist_by(r, b, idx)
}

/// The artists kept from a bucket are a sub-list of it, in bucket order,
/// and none of them is a workflow marker.
pub proof fn lemma_artists_sublist(bucket: Seq<Seq<char>>)
    ensures
        is_sublist(real_artists(bucket), bucket),
        forall|k: int| 0 <= k < real_artists(bucket).len()
            ==> !non_artist_tags().contains(lower(#[trigger] real_artists(bucket)[k])),
    decreases bucket.len(),
{
    if bucket.len() == 0 {
        assert(sublist_by(real_artists(bucket), bucket, Seq::<int>::empty()));
    } else {
        let b0 = bucket.drop_last();
        lemma_artists_sublist(b0);
        let prev = real_artists(b0);
        let idx = choose|idx: Seq<int>| sublist_by(prev, b0, idx);
        if non_artist_tags().contains(lower(bucket.last())) {
            assert(sublist_by(prev, bucket, idx));
        } else {
            let r = prev.push(bucket.last());
            let idx2 = idx.push(bucket.len() - 1);
            assert forall|k: int| 0 <= k < r.len() implies 0 <= #[trigger] idx2[k] < bucket.len() && r[k] == bucket[idx2[k]] by {
                if k < prev.len() {
                    assert(idx2[k] == idx[k]);
                }
            }
            assert(sublist_by(r, bucket, idx2));
            assert forall|k: int| 0 <= k < r.len() implies !non_artist_tags().contains(lower(#[trigger] r[k])) by {
                if k < prev.len() {
                    assert(r[k] == prev[k]);
                }
            }
        }
    }
}

/// No artist kept from a bucket is one of e621's workflow markers
/// (compared ASCII case-insensitively): `conditional_dnp`, `avoid_posting`,
/// `unknown_artist`, `unknown_artist_signature`, `anonymous_artist`,
/// `third-party_edit`, `sound_warning`, `epilepsy_warning`.
pub proof fn lemma_no_marker_credited(bucket: Seq<Seq<char>>)
    ensures
        forall|k: int| 0 <= k < real_artists(bucket).len() ==> {
            let n = lower(#[trigger] real_artists(bucket)[k]);
            &&& n != "conditional_dnp"@
            &&& n != "avoid_posting"@
            &&& n != "unknown_artist"@
            &&& n != "unknown_artist_signature"@
            &&& n != "anonymous_artist"@
            &&& n != "third-party_edit"@
            &&& n != "sound_warning"@
            &&& n != "epilepsy_warning"@
        },
{
    lemma_artists_sublist(bucket);
    let m = non_artist_tags();
    assert(m[0] == "conditional_dnp"@);
    assert(m[1] == "avoid_posting"@);
    assert(m[2] == "unknown_artist"@);
    assert(m[3] == "unknown_artist_signature"@);
    assert(m[4] == "anonymous_artist"@);
    assert(m[5] == "third-party_edit"@);
    assert(m[6] == "sound_warning"@);
    assert(m[7] == "epilepsy_warning"@);
}

/// Every real artist is kept: an entry of the bucket that is (ASCII
/// case-insensitively) none of the workflow markers is credited.
pub proof fn lemma_artists_kept(bucket: Seq<Seq<char>>)
    ensures
        forall|j: int| 0 <= j < bucket.len() && ({
            let n = lower(#[trigger] bucket[j]);
            &&& n != "conditional_dnp"@
            &&& n != "avoid_posting"@
            &&& n != "unknown_artist"@
            &&& n != "unknown_artist_signature"@
            &&& n != "anonymous_artist"@
            &&& n != "third-party_edit"@
            &&& n != "sound_warning"@
            &&& n != "epilepsy_warning"@
        }) ==> real_artists(bucket).contains(bucket[j]),
    decreases bucket.len(),
{
    if bucket.len() > 0 {
        let b0 = bucket.drop_last();
        lemma_artists_kept(b0);
        let prev = real_artists(b0);
        let now = real_artists(bucket);
        assert(forall|k: int| 0 <= k < prev.len() ==> now.contains(#[trigger] prev[k])) by {
            assert forall|k: int| 0 <= k < prev.len() implies now.contains(#[trigger] prev[k]) by {
                assert(now[k] == prev[k]);
            }
        }
        let m = non_artist_tags();
        assert forall|j: int| 0 <= j < bucket.len() && ({
            let n = lower(#[trigger] bucket[j]);
            &&& n != "conditional_dnp"@
            &&& n != "avoid_posting"@
            &&& n != "unknown_artist"@
            &&& n != "unknown_artist_signature"@
            &&& n != "anonymous_artist"@
            &&& n != "third-party_edit"@
            &&& n != "sound_warning"@
            &&& n != "epilepsy_warning"@
        }) implies now.contains(bucket[j]) by {
            if j < b0.len() {
                assert(bucket[j] == b0[j]);
                let k = choose|k: int| 0 <= k < prev.len() && prev[k] == b0[j];
                assert(now[k] == prev[k]);
            } else {
                assert(bucket[j] == bucket.last());
                assert forall|i: int| 0 <= i < m.len() implies m[i] != lower(bucket.last()) by {
                    assert(m[0] == "conditional_dnp"@);
                    assert(m[1] == "avoid_posting"@);
                    assert(m[2] == "unknown_artist"@);
                    assert(m[3] == "unknown_artist_signature"@);
                    assert(m[4] == "anonymous_artist"@);
                    assert(m[5] == "third-party_edit"@);
                    assert(m[6] == "sound_warning"@);
                    assert(m[7] == "epilepsy_warning"@);
                }
                assert(!m.contains(lower(bucket.last())));
                assert(now[now.len() - 1] == bucket.last());
            }
        }
    }
}

pub open spec fn all_tags(t: RawTags) -> Seq<Seq<char>> {
    views(t.general@) + views(t.species@) + views(t.character@) + views(t.copyright@)
        + views(t.artist@) + views(t.meta@) + views(t.lore@) + views(t.invalid@)
}

/// The rendition stored under `key`, if any.
pub open spec fn lookup(entries: Seq<(String, RawRendition)>, key: Seq<char>) -> Option<RawRendition> {
    let i = crate::text::first_idx(0, entries.len() as int, |k: int| entries[k].0@ == key);
    if i < entries.len() { Some(entries[i].1) } else { None }
}

pub open spec fn opt_seq(o: Option<RawRendition>) -> Seq<RawRendition> {
    match o {
        Some(r) => seq![r],
        None => seq![],
    }
}

/// Telegram fetches videos by URL only up to about 20 MB.
pub const TELEGRAM_URL_FETCH_CAP: u64 = 19_000_000;

/// The MP4 candidates, best first: the `mp4` variant, then the 720p and
/// 480p samples.
pub open spec fn mp4_candidates(sample: Option<RawSample>) -> Seq<RawRendition> {
    match sample {
        Some(s) => match s.alternates {
            Some(alt) => (match alt.variants {
                Some(v) => opt_seq(lookup(v@, "mp4"@)),
                None => seq![],
            }) + (match alt.samples {
                Some(v) => opt_seq(lookup(v@, "720p"@)) + opt_seq(lookup(v@, "480p"@)),
                None => seq![],
            }),
            None => seq![],
        },
        None => seq![],
    }
}

pub open spec fn usable(r: RawRendition) -> bool {
    (r.size is None || r.size->0 <= TELEGRAM_URL_FETCH_CAP) && r.url is Some
}

/// The first candidate that fits the cap and has a URL.
pub open spec fn mp4_spec(cands: Seq<RawRendition>) -> Option<Seq<char>> {
    let i = crate::text::first_idx(0, cands.len() as int, |k: int| usable(cands[k]));
    if i < cands.len() { Some(cands[i].url->0@) } else { None }
}

/// Choosing among a candidate in front of others: it wins when usable,
/// else the choice falls to the others.
proof fn lemma_mp4_front(x: Option<RawRendition>, rest: Seq<RawRendition>)
    ensures
        mp4_spec(opt_seq(x) + rest) == (if x is Some && usable(x->0) { Some(x->0.url->0@) } else { mp4_spec(rest) }),
{
    let c = opt_seq(x) + rest;
    let pc = |k: int| usable(c[k]);
    let pr = |k: int| usable(rest[k]);
    let n = rest.len() as int;
    crate::text::lemma_first_idx(0, n, pr);
    let i = crate::text::first_idx(0, n, pr);
    match x {
        None => {
            assert(c =~= rest);
        },
        Some(r) => {
            assert(c[0] == r);
            if usable(r) {
                assert(pc(0));
                crate::text::lemma_first_idx_is(0, 0, n + 1, pc);
            } else {
                assert forall|k: int| 0 <= k < i + 1 implies !#[trigger] pc(k) by {
                    if k > 0 {
                        assert(c[k] == rest[k - 1]);
                        assert(!pr(k - 1));
                    }
                }
                if i < n {
                    assert(c[i + 1] == rest[i]);
                    assert(pr(i));
                }
                crate::text::lemma_first_idx_is(0, i + 1, n + 1, pc);
                if i < n {
                    assert(c[i + 1] == rest[i]);
                }
            }
        },
    }
}

/// The MP4 rendition of a post is the first usable one (a URL, and within
/// Telegram's fetch cap) in the fixed quality order: the `mp4` variant,
/// then the 720p sample, then the 480p sample; none when none is usable.
pub proof fn lemma_mp4_quality_order(sample: RawSample)
    ensures
        ({
            let none = Option::<RawRendition>::None;
            let mp4 = match sample.alternates {
                Some(a) => match a.variants { Some(v) => lookup(v@, "mp4"@), None => none },
                None => none,
            };
            let hd = match sample.alternates {
                Some(a) => match a.samples { Some(v) => lookup(v@, "720p"@), None => none },
                None => none,
            };
            let sd = match sample.alternates {
                Some(a) => match a.samples { Some(v) => lookup(v@, "480p"@), None => none },
                None => none,
            };
            mp4_spec(mp4_candidates(Some(sample))) == (if mp4 is Some && usable(mp4->0) {
                Some(mp4->0.url->0@)
            } else if hd is Some && usable(hd->0) {
                Some(hd->0.url->0@)
            } else if sd is Some && usable(sd->0) {
                Some(sd->0.url->0@)
            } else {
                None
            })
        }),
{
    let none = Option::<RawRendition>::None;
    let mp4 = match sample.alternates {
        Some(a) => match a.variants { Some(v) => lookup(v@, "mp4"@), None => none },
        None => none,
    };
    let hd = match sample.alternates {
        Some(a) => match a.samples { Some(v) => lookup(v@, "720p"@), None => none },
        None => none,
    };
    let sd = match sample.alternates {
        Some(a) => match a.samples { Some(v) => lookup(v@, "480p"@), None => none },
        None => none,
    };
    let e = Seq::<RawRendition>::empty();
    let c = mp4_candidates(Some(sample));
    assert(c =~= opt_seq(mp4) + (opt_seq(hd) + (opt_seq(sd) + e)));
    lemma_mp4_front(sd, e);
    lemma_mp4_front(hd, opt_seq(sd) + e);
    lemma_mp4_front(mp4, opt_seq(hd) + (opt_seq(sd) + e));
    crate::text::lemma_first_idx(0, 0, |k: int| usable(e[k]));
}

/// The preview: the sample, else the thumbnail, else the file itself.
pub open spec fn preview_spec(raw: RawPost, file: Seq<char>) -> Seq<char> {
    match raw.sample {
        Some(s) if s.url is Some => s.url->0@,
        _ => match raw.preview_url {
            Some(p) => p@,
            None => file,
        },
    }
}

pub open spec fn opt_chars(o: Option<String>) -> Option<Seq<char>> {
    match o {
        Some(s) => Some(s@),
        None => None,
    }
}

fn lookup_rendition(entries: &Vec<(String, RawRendition)>, key: &str) -> (r: Option<RawRendition>)
    ensures
        r == lookup(entries@, key@),
{
    let ghost p = |k: int| entries@[k].0@ == key@;
    let mut k: usize = 0;
    while k < entries.len()
        invariant
            k <= entries.len(),
            p == (|k: int| entries@[k].0@ == key@),
            forall|q: int| 0 <= q < k ==> !#[trigger] p(q),
        decreases entries.len() - k,
    {
        if str_eq(entries[k].0.as_str(), key) {
            assert(p(k as int));
            proof {
                crate::text::lemma_first_idx_is(0, k as int, entries@.len() as int, p);
            }
            let (_, r) = &entries[k];
            return Some(RawRendition { url: r.url.clone(), size: r.size });
        }
        k = k + 1;
    }
    proof {
        crate::text::lemma_first_idx_is(0, entries@.len() as int, entries@.len() as int, p);
    }
    None
}

fn push_opt(v: &mut Vec<RawRendition>, o: Option<RawRendition>)
    ensures
        final(v)@ == old(v)@ + opt_seq(o),
{
    match o {
        Some(r) => {
            v.push(r);
        },
        None => {
            assert(old(v)@ + opt_seq(o) =~= old(v)@);
        },
    }
}

fn candidates(sample: &Option<RawSample>) -> (c: Vec<RawRendition>)
    ensures
        c@ == mp4_candidates(*sample),
{
    let mut c: Vec<RawRendition> = Vec::new();
    match sample {
        Some(s) => match &s.alternates {
            Some(alt) => {
                match &alt.variants {
                    Some(v) => {
                        let r = lookup_rendition(v, "mp4");
                        push_opt(&mut c, r);
                    },
                    None => {},
                }
                let ghost first = c@;
                match &alt.samples {
                    Some(v) => {
                        let r720 = lookup_rendition(v, "720p");
                        push_opt(&mut c, r720);
                        let r480 = lookup_rendition(v, "480p");
                        push_opt(&mut c, r480);
                    },
                    None => {},
                }
                assert(c@ =~= mp4_candidates(*sample));
            },
            None => {},
        },
        None => {},
    }
    assert(c@ =~= mp4_candidates(*sample));
    c
}

fn pick_mp4(cands: &Vec<RawRendition>) -> (r: Option<String>)
    ensures
        opt_chars(r) == mp4_spec(cands@),
{
    let ghost p = |k: int| usable(cands@[k]);
    let mut k: usize = 0;
    while k < cands.len()
        invariant
            k <= cands.len(),
            p == (|k: int| usable(cands@[k])),
            forall|q: int| 0 <= q < k ==> !#[trigger] p(q),
        decreases cands.len() - k,
    {
        let r = &cands[k];
        let fits = match r.size {
            Some(size) => size <= TELEGRAM_URL_FETCH_CAP,
            None => true,
        };
        if fits {
            match &r.url {
                Some(u) => {
                    assert(p(k as int));
                    proof {
                        crate::text::lemma_first_idx_is(0, k as int, cands@.len() as int, p);
                    }
                    return Some(u.clone());
                },
                None => {},
            }
        }
        assert(!p(k as int));
        k = k + 1;
    }
    proof {
        crate::text::lemma_first_idx_is(0, cands@.len() as int, cands@.len() as int, p);
    }
    None
}

fn is_marker(name: &str) -> (b: bool)
    ensures
        b == non_artist_tags().contains(lower(name@)),
{
    let low = lowercase(name);
    let mut s = String::new();
    let mut k: usize = 0;
    while k < low.len()
        invariant
            k <= low.len(),
            s@ == low@.take(k as int),
        decreases low.len() - k,
    {
        push_char(&mut s, low[k]);
        assert(low@.take(k + 1) =~= low@.take(k as int).push(low@[k as int]));
        k = k + 1;
    }
    assert(low@.take(low.len() as int) =~= low@);
    let markers: [&str; 8] = [
        "conditional_dnp",
        "avoid_posting",
        "unknown_artist",
        "unknown_artist_signature",
        "anonymous_artist",
        "third-party_edit",
        "sound_warning",
        "epilepsy_warning",
    ];
    let ghost all = non_artist_tags();
    let mut i: usize = 0;
    while i < 8
        invariant
            i <= 8,
            s@ == lower(name@),
            all == non_artist_tags(),
            forall|j: int| 0 <= j < 8 ==> (#[trigger] markers@[j])@ == all[j],
            forall|j: int| 0 <= j < i ==> all[j] != s@,
        decreases 8 - i,
    {
        if str_eq(s.as_str(), markers[i]) {
            assert(all[i as int] == s@);
            return true;
        }
        i = i + 1;
    }
    false
}

fn real_artists_of(bucket: &Vec<String>) -> (r: Vec<String>)
    ensures
        views(r@) == real_artists(views(bucket@)),
{
    let mut r: Vec<String> = Vec::new();
    let mut k: usize = 0;
    while k < bucket.len()
        invariant
            k <= bucket.len(),
            views(r@) == real_artists(views(bucket@).take(k as int)),
        decreases bucket.len() - k,
    {
        assert(views(bucket@).take(k + 1).drop_last() =~= views(bucket@).take(k as int));
        assert(views(bucket@).take(k + 1).last() == bucket@[k as int]@);
        if !is_marker(bucket[k].as_str()) {
            let ghost before = r@;
            r.push(bucket[k].clone());
            assert(views(r@) =~= views(before).push(bucket@[k as int]@));
        }
        k = k + 1;
    }
    assert(views(bucket@).take(bucket.len() as int) =~= views(bucket@));
    r
}

fn extend_strings(out: &mut Vec<String>, more: &Vec<String>)
    ensures
        views(final(out)@) == views(old(out)@) + views(more@),
{
    let mut k: usize = 0;
    while k < more.len()
        invariant
            k <= more.len(),
            views(out@) == views(old(out)@) + views(more@).take(k as int),
        decreases more.len() - k,
    {
        let ghost before = out@;
        out.push(more[k].clone());
        assert(views(out@) =~= views(before).push(more@[k as int]@));
        assert(views(more@).take(k + 1) =~= views(more@).take(k as int).push(more@[k as int]@));
        k = k + 1;
    }
    assert(views(more@).take(more.len() as int) =~= views(more@));
}

/// Metadata from a raw post: the canonical source URL; `Unavailable` when
/// e621 serves no file (deleted or login-restricted); the preview; the best
/// MP4 rendition under the Telegram cap; the artists without workflow
/// markers; every tag of every bucket.
pub fn metadata_from_raw(raw: RawPost) -> (r: Result<E621PostMetadata, FetchError>)
    ensures
        match raw.file_url {
            None => r is Err && r->Err_0 is Unavailable && r->Err_0->Unavailable_0@ == post_source(raw.id),
            Some(file) => r is Ok && {
                let m = r->Ok_0;
                &&& m.source@ == post_source(raw.id)
                &&& m.file_url@ == file@
                &&& m.preview_url@ == preview_spec(raw, file@)
                &&& opt_chars(m.mp4_url) == mp4_spec(mp4_candidates(raw.sample))
                &&& views(m.artists@) == real_artists(views(raw.tags.artist@))
                &&& views(m.tags@) == all_tags(raw.tags)
                &&& m.artist_sources == raw.sources
                &&& m.pools == raw.pools
            },
        },
{
    let mut source = String::new();
    push_str(&mut source, "https://e621.net/posts/");
    push_decimal(&mut source, raw.id);
    let file_url = match &raw.file_url {
        Some(f) => f.clone(),
        None => return Err(FetchError::Unavailable(source)),
    };
    let preview_url = match &raw.sample {
        Some(s) if s.url.is_some() => match &s.url {
            Some(u) => u.clone(),
            None => file_url.clone(),
        },
        _ => match &raw.preview_url {
            Some(p) => p.clone(),
            None => file_url.clone(),
        },
    };
    let cands = candidates(&raw.sample);
    let mp4_url = pick_mp4(&cands);
    let artists = real_artists_of(&raw.tags.artist);
    let mut tags: Vec<String> = Vec::new();
    extend_strings(&mut tags, &raw.tags.general);
    extend_strings(&mut tags, &raw.tags.species);
    extend_strings(&mut tags, &raw.tags.character);
    extend_strings(&mut tags, &raw.tags.copyright);
    extend_strings(&mut tags, &raw.tags.artist);
    extend_strings(&mut tags, &raw.tags.meta);
    extend_strings(&mut tags, &raw.tags.lore);
    extend_strings(&mut tags, &raw.tags.invalid);
    assert(Seq::<Seq<char>>::empty() + views(raw.tags.general@) =~= views(raw.tags.general@));
    Ok(E621PostMetadata {
        source,
        tags,
        artists,
        file_url,
        mp4_url,
        preview_url,
        artist_sources: raw.sources,
        pools: raw.pools,
    })
}

// ---------------------------------------------------------- post ids ----

/// The post id after the first `posts` segment.
pub open spec fn post_id_in(segments: Seq<Seq<char>>) -> Option<u64> {
    let i = crate::text::first_idx(0, segments.len() as int, |k: int| segments[k] == "posts"@);
    if i + 1 < segments.len() { parse_u64_spec(segments[i + 1]) } else { None }
}

/// The e621 post id in segments `https://e621.net/posts/123` (or
/// `.../posts/123/show`) read as path segments.
pub fn post_id_from_segments(segments: &Vec<String>) -> (r: Option<u64>)
    ensures
        r == post_id_in(views(segments@)),
{
    let ghost v = views(segments@);
    let ghost p = |k: int| v[k] == "posts"@;
    let mut k: usize = 0;
    while k < segments.len()
        invariant
            k <= segments.len(),
            v == views(segments@),
            p == (|k: int| v[k] == "posts"@),
            forall|q: int| 0 <= q < k ==> !#[trigger] p(q),
        decreases segments.len() - k,
    {
        if str_eq(segments[k].as_str(), "posts") {
            assert(p(k as int));
            proof {
                crate::text::lemma_first_idx_is(0, k as int, v.len() as int, p);
            }
            if k + 1 < segments.len() {
                return parse_u64(segments[k + 1].as_str());
            }
            return None;
        }
        k = k + 1;
    }
    proof {
        crate::text::lemma_first_idx_is(0, v.len() as int, v.len() as int, p);
    }
    None
}

/// The e621 post id of a source URL.
pub fn extract_post_id(source: &str) -> (r: Option<u64>)
    ensures
        match url_path_segments(source@) {
            Some(segs) => r == post_id_in(segs),
            None => r is None,
        },
{
    match path_segments(source) {
        Some(segs) => post_id_from_segments(&segs),
        None => None,
    }
}

// ----------------------------------------------------------- pool pages ----

/// Index in `fetched` of the last answer for `id`, or -1.
pub open spec fn last_answer(fetched: Seq<u64>, id: u64) -> int
    decreases fetched.len(),
{
    if fetched.len() == 0 {
        -1
    } else if fetched.last() == id {
        fetched.len() - 1
    } else {
        last_answer(fetched.drop_last(), id)
    }
}

/// Pool order: for each member id in order, the last answer fetched for
/// it, each used once.
pub open spec fn pool_order(post_ids: Seq<u64>, fetched: Seq<u64>) -> Seq<int>
    decreases post_ids.len(),
{
    if post_ids.len() == 0 {
        seq![]
    } else {
        let prev = pool_order(post_ids.drop_last(), fetched);
        let a = last_answer(fetched, post_ids.last());
        if a >= 0 && !prev.contains(a) { prev.push(a) } else { prev }
    }
}

proof fn lemma_last_answer(fetched: Seq<u64>, id: u64)
    ensures
        -1 <= last_answer(fetched, id) < fetched.len(),
        last_answer(fetched, id) >= 0 ==> fetched[last_answer(fetched, id)] == id,
    decreases fetched.len(),
{
    if fetched.len() > 0 && fetched.last() != id {
        lemma_last_answer(fetched.drop_last(), id);
    }
}

/// Pool pages come back as a duplicate-free subsequence of the pool's
/// members: each page is a distinct answer for a member, and the members
/// they answer for appear in pool order (given by the returned positions).
pub proof fn lemma_pool_order(post_ids: Seq<u64>, fetched: Seq<u64>) -> (pos: Seq<int>)
    ensures
        pool_order(post_ids, fetched).no_duplicates(),
        pos.len() == pool_order(post_ids, fetched).len(),
        forall|i: int| 0 <= i < pos.len() ==> 0 <= #[trigger] pos[i] < post_ids.len(),
        forall|i: int, j: int| 0 <= i < j < pos.len() ==> pos[i] < pos[j],
        forall|i: int| 0 <= i < pos.len() ==> 0 <= #[trigger] pool_order(post_ids, fetched)[i] < fetched.len()
            && fetched[pool_order(post_ids, fetched)[i]] == post_ids[pos[i]],
    decreases post_ids.len(),
{
    if post_ids.len() == 0 {
        seq![]
    } else {
        let prev_ids = post_ids.drop_last();
        let prev_pos = lemma_pool_order(prev_ids, fetched);
        let prev = pool_order(prev_ids, fetched);
        let a = last_answer(fetched, post_ids.last());
        lemma_last_answer(fetched, post_ids.last());
        assert forall|i: int| 0 <= i < prev_pos.len() implies post_ids[prev_pos[i]] == prev_ids[prev_pos[i]] by {}
        if a >= 0 && !prev.contains(a) {
            let pos = prev_pos.push(post_ids.len() - 1);
            let now = prev.push(a);
            assert forall|x: int, y: int| 0 <= x < y < now.len() implies now[x] != now[y] by {
                if y == prev.len() {
                    assert(prev[x] == now[x]);
                }
            }
            assert forall|i: int| 0 <= i < pos.len() implies 0 <= #[trigger] now[i] < fetched.len()
                && fetched[now[i]] == post_ids[pos[i]] by {
                if i < prev.len() {
                    assert(now[i] == prev[i] && pos[i] == prev_pos[i]);
                }
            }
            pos
        } else {
            prev_pos
        }
    }
}

fn last_answer_of(fetched: &Vec<u64>, id: u64) -> (r: i64)
    requires
        fetched@.len() < i64::MAX,
    ensures
        r == last_answer(fetched@, id),
{
    let mut k: usize = fetched.len();
    assert(fetched@.take(k as int) =~= fetched@);
    while k > 0
        invariant
            k <= fetched.len(),
            fetched@.len() < i64::MAX,
            last_answer(fetched@, id) == last_answer(fetched@.take(k as int), id),
        decreases k,
    {
        assert(fetched@.take(k as int).drop_last() =~= fetched@.take(k - 1));
        if fetched[k - 1] == id {
            return (k - 1) as i64;
        }
        k = k - 1;
    }
    -1
}

/// A field-for-field copy.
pub fn copy_metadata(m: &E621PostMetadata) -> (r: E621PostMetadata)
    ensures
        r.source@ == m.source@,
        views(r.tags@) == views(m.tags@),
        views(r.artists@) == views(m.artists@),
        r.file_url@ == m.file_url@,
        opt_chars(r.mp4_url) == opt_chars(m.mp4_url),
        r.preview_url@ == m.preview_url@,
        views(r.artist_sources@) == views(m.artist_sources@),
        r.pools@ == m.pools@,
{
    E621PostMetadata {
        source: m.source.clone(),
        tags: clone_strings(&m.tags),
        artists: clone_strings(&m.artists),
        file_url: m.file_url.clone(),
        mp4_url: crate::text::clone_opt_string(&m.mp4_url),
        preview_url: m.preview_url.clone(),
        artist_sources: clone_strings(&m.artist_sources),
        pools: m.pools.clone(),
    }
}

/// Re-sort fetched pool pages into pool order: for each member id, the
/// last answer fetched for it (each answer used once). `fetched_ids[k]` is
/// the post id of `fetched[k]`; members e621 did not answer for are absent.
pub fn in_pool_order(post_ids: &Vec<u64>, fetched_ids: &Vec<u64>, fetched: &Vec<E621PostMetadata>) -> (r: Vec<E621PostMetadata>)
    requires
        fetched_ids@.len() == fetched@.len(),
        fetched@.len() < i64::MAX,
    ensures
        r@.len() == pool_order(post_ids@, fetched_ids@).len(),
        forall|i: int| 0 <= i < r@.len() ==> (#[trigger] r@[i]).source@ == fetched@[pool_order(post_ids@, fetched_ids@)[i]].source@,
{
    let n = fetched.len();
    let mut consumed: Vec<bool> = Vec::new();
    let mut k: usize = 0;
    while k < n
        invariant
            k <= n == fetched@.len(),
            consumed@.len() == k,
            forall|j: int| 0 <= j < k ==> !(#[trigger] consumed@[j]),
        decreases n - k,
    {
        consumed.push(false);
        k = k + 1;
    }
    let mut r: Vec<E621PostMetadata> = Vec::new();
    let ghost mut order: Seq<int> = seq![];
    let mut i: usize = 0;
    while i < post_ids.len()
        invariant
            i <= post_ids.len(),
            n == fetched@.len() == fetched_ids@.len(),
            n < i64::MAX,
            consumed@.len() == n,
            order == pool_order(post_ids@.take(i as int), fetched_ids@),
            r@.len() == order.len(),
            forall|j: int| 0 <= j < order.len() ==> 0 <= #[trigger] order[j] < n,
            forall|j: int| 0 <= j < r@.len() ==> (#[trigger] r@[j]).source@ == fetched@[order[j]].source@,
            forall|j: int| 0 <= j < n ==> (#[trigger] consumed@[j]) == order.contains(j),
        decreases post_ids.len() - i,
    {
        assert(post_ids@.take(i + 1).drop_last() =~= post_ids@.take(i as int));
        assert(post_ids@.take(i + 1).last() == post_ids@[i as int]);
        let a = last_answer_of(fetched_ids, post_ids[i]);
        proof {
            lemma_last_answer_bounds(fetched_ids@, post_ids@[i as int]);
        }
        if a >= 0 && !consumed[a as usize] {
            let idx = a as usize;
            r.push(copy_metadata(&fetched[idx]));
            consumed.set(idx, true);
            proof {
                let before = order;
                order = order.push(a as int);
                assert forall|j: int| 0 <= j < n implies (#[trigger] consumed@[j]) == order.contains(j) by {
                    if j == a {
                        assert(order[order.len() - 1] == j);
                    } else {
                        if order.contains(j) {
                            let q = choose|q: int| 0 <= q < order.len() && order[q] == j;
                            if q < before.len() {
                                assert(before[q] == j);
                            }
                        }
                        if before.contains(j) {
                            let q = choose|q: int| 0 <= q < before.len() && before[q] == j;
                            assert(order[q] == j);
                        }
                    }
                }
            }
        }
        i = i + 1;
    }
    assert(post_ids@.take(post_ids.len() as int) =~= post_ids@);
    r
}

pub proof fn lemma_last_answer_bounds(fetched: Seq<u64>, id: u64)
    ensures
        -1 <= last_answer(fetched, id) < fetched.len(),
        last_answer(fetched, id) >= 0 ==> fetched[last_answer(fetched, id)] == id,
    decreases fetched.len(),
{
    if fetched.len() > 0 && fetched.last() != id {
        lemma_last_answer_bounds(fetched.drop_last(), id);
    }
}

/// The ids of the raw posts e621 serves a file for, in order.
pub open spec fn served_ids(raws: Seq<RawPost>) -> Seq<u64>
    decreases raws.len(),
{
    if raws.len() == 0 {
        seq![]
    } else {
        let prev = served_ids(raws.drop_last());
        if raws.last().file_url is Some { prev.push(raws.last().id) } else { prev }
    }
}

/// One answer page of a pool search taken in: each post e621 serves a file
/// for is kept, its id and metadata appended in order; a deleted or
/// login-restricted post (no file) is passed over, not an error.
pub fn collect_pool_page(raws: Vec<RawPost>, ids: &mut Vec<u64>, pages: &mut Vec<E621PostMetadata>)
    requires
        old(ids)@.len() == old(pages)@.len(),
    ensures
        final(ids)@ == old(ids)@ + served_ids(raws@),
        final(pages)@.len() == final(ids)@.len(),
        forall|k: int| 0 <= k < old(pages)@.len() ==> #[trigger] final(pages)@[k] == old(pages)@[k],
        forall|k: int| old(ids)@.len() <= k < final(ids)@.len() ==> (#[trigger] final(pages)@[k]).source@ == post_source(final(ids)@[k]),
{
    let ghost ids0 = ids@;
    let ghost pages0 = pages@;
    let ghost all = raws@;
    let n: usize = raws.len();
    let mut rest = raws;
    let mut k: usize = 0;
    assert(all.take(0) =~= Seq::<RawPost>::empty());
    assert(all.skip(0) =~= all);
    while rest.len() > 0
        invariant
            k <= all.len() == n,
            rest@ == all.skip(k as int),
            ids@ == ids0 + served_ids(all.take(k as int)),
            pages@.len() == ids@.len(),
            ids0.len() == pages0.len(),
            forall|j: int| 0 <= j < pages0.len() ==> #[trigger] pages@[j] == pages0[j],
            forall|j: int| ids0.len() <= j < ids@.len() ==> (#[trigger] pages@[j]).source@ == post_source(ids@[j]),
        decreases rest.len(),
    {
        let raw = rest.remove(0);
        assert(raw == all[k as int]);
        assert(all.take(k + 1).drop_last() =~= all.take(k as int));
        assert(all.take(k + 1).last() == all[k as int]);
        assert(rest@ =~= all.skip(k + 1));
        let id = raw.id;
        match metadata_from_raw(raw) {
            Ok(m) => {
                ids.push(id);
                pages.push(m);
                assert(ids@ =~= ids0 + served_ids(all.take(k + 1)));
            },
            Err(_) => {
                assert(ids@ =~= ids0 + served_ids(all.take(k + 1)));
            },
        }
        k = k + 1;
    }
    assert(all.take(k as int) =~= all);
}

/// Some post of `raws` with id `id` comes with a file.
pub open spec fn served_in(raws: Seq<RawPost>, id: u64) -> bool {
    exists|j: int| 0 <= j < raws.len() && raws[j].id == id && raws[j].file_url is Some
}

/// The ids kept from a search answer are exactly those of the posts e621
/// serves a file for: each kept id is such a post's, and each such post's
/// id is kept.
pub proof fn lemma_served_ids(raws: Seq<RawPost>)
    ensures
        forall|k: int| 0 <= k < served_ids(raws).len() ==> served_in(raws, #[trigger] served_ids(raws)[k]),
        forall|j: int| 0 <= j < raws.len() && (#[trigger] raws[j]).file_url is Some ==> served_ids(raws).contains(raws[j].id),
    decreases raws.len(),
{
    if raws.len() > 0 {
        let r0 = raws.drop_last();
        lemma_served_ids(r0);
        let prev = served_ids(r0);
        let now = served_ids(raws);
        assert(raws.last() == raws[raws.len() - 1]);
        assert forall|k: int| 0 <= k < now.len() implies served_in(raws, #[trigger] now[k]) by {
            if k < prev.len() {
                assert(now[k] == prev[k]);
                assert(served_in(r0, prev[k]));
                let j = choose|j: int| 0 <= j < r0.len() && r0[j].id == prev[k] && r0[j].file_url is Some;
                assert(raws[j] == r0[j]);
            } else {
                assert(now[k] == raws[raws.len() - 1].id);
                assert(raws[raws.len() - 1].file_url is Some);
            }
        }
        assert forall|j: int| 0 <= j < raws.len() && (#[trigger] raws[j]).file_url is Some implies now.contains(raws[j].id) by {
            if j < raws.len() - 1 {
                assert(raws[j] == r0[j]);
                assert(prev.contains(r0[j].id));
                let k = choose|k: int| 0 <= k < prev.len() && prev[k] == r0[j].id;
                assert(now[k] == prev[k]);
            } else {
                assert(now[now.len() - 1] == raws[j].id);
            }
        }
    }
}

/// Whether the pool's page walk is over: the last page came back short,
/// or every member has been collected.
pub fn pool_paging_done(fetched_on_page: usize, page_limit: usize, collected: usize, members: usize) -> (b: bool)
    ensures
        b == (fetched_on_page < page_limit || collected >= members),
{
    fetched_on_page < page_limit || collected >= members
}

// ------------------------------------------------------------- media ----

/// Why a source's media could not be resolved.
#[derive(Debug)]
pub enum MediaResolveError {
    /// The upstream is gone (deleted, restricted, unknown).
    NotFound(String),
    /// No resolver handles this kind of source.
    Unsupported(String),
    Network(String),
    Parse(String),
}

/// The e621 post whose media a source names: refused unless the source is
/// an e621 page; a page without a post id reads as not found.
pub fn resolve_target(source: &str) -> (r: Result<u64, MediaResolveError>)
    ensures
        match r {
            Ok(id) => crate::curation::is_e621_source(source@)
                && url_path_segments(source@) is Some
                && post_id_in(url_path_segments(source@)->0) == Some(id),
            Err(MediaResolveError::Unsupported(s)) => !crate::curation::is_e621_source(source@) && s@ == source@,
            Err(MediaResolveError::NotFound(s)) => crate::curation::is_e621_source(source@) && s@ == source@
                && match url_path_segments(source@) {
                    Some(segs) => post_id_in(segs) is None,
                    None => true,
                },
            Err(_) => false,
        },
{
    if !crate::curation::is_e621_url(source) {
        return Err(MediaResolveError::Unsupported(source.to_owned()));
    }
    match extract_post_id(source) {
        Some(id) => Ok(id),
        None => Err(MediaResolveError::NotFound(source.to_owned())),
    }
}

/// The URL of a direct media value (empty for the others).
pub open spec fn direct_url(m: crate::publisher::ResolvedMedia) -> Seq<char> {
    match m {
        crate::publisher::ResolvedMedia::Photo(u) | crate::publisher::ResolvedMedia::Video(u)
        | crate::publisher::ResolvedMedia::Animation(u) => u@,
        _ => seq![],
    }
}

/// The media of an e621 post as it goes out: the file, by its extension,
/// except that a `.webm` video goes out as e621's MP4 rendition when there
/// is one (Telegram cannot fetch webm).
pub open spec fn e621_media_spec(file: Seq<char>, mp4: Option<Seq<char>>) -> (crate::publisher::MediaKind, Seq<char>) {
    let k = crate::publisher::classify_spec(file);
    if k == crate::publisher::MediaKind::Video && crate::publisher::is_webm_spec(file) && mp4 is Some {
        (crate::publisher::MediaKind::Video, mp4->0)
    } else {
        (k, file)
    }
}

pub fn e621_media(m: &E621PostMetadata) -> (r: crate::publisher::ResolvedMedia)
    ensures
        (r.kind_spec(), direct_url(r)) == e621_media_spec(m.file_url@, opt_chars(m.mp4_url)),
{
    let media = crate::publisher::ResolvedMedia::classify(m.file_url.clone());
    match media {
        crate::publisher::ResolvedMedia::Video(original) => {
            if crate::publisher::is_webm(original.as_str()) {
                match &m.mp4_url {
                    Some(mp4) => return crate::publisher::ResolvedMedia::Video(mp4.clone()),
                    None => {},
                }
            }
            crate::publisher::ResolvedMedia::Video(original)
        },
        other => other,
    }
}

/// The preview a browse result first goes out as: a gif animates, a video
/// plays from its MP4 rendition (still preview when it has none), anything
/// else shows the still preview.
pub open spec fn browse_preview_spec(file: Seq<char>, mp4: Option<Seq<char>>, preview: Seq<char>) -> (crate::publisher::MediaKind, Seq<char>) {
    let k = crate::publisher::classify_spec(file);
    if k == crate::publisher::MediaKind::Animation {
        (k, file)
    } else if k == crate::publisher::MediaKind::Video && mp4 is Some {
        (k, mp4->0)
    } else {
        (crate::publisher::MediaKind::Photo, preview)
    }
}

pub fn browse_preview(m: &E621PostMetadata) -> (r: crate::publisher::ResolvedMedia)
    ensures
        (r.kind_spec(), direct_url(r)) == browse_preview_spec(m.file_url@, opt_chars(m.mp4_url), m.preview_url@),
{
    match crate::publisher::ResolvedMedia::classify(m.file_url.clone()) {
        crate::publisher::ResolvedMedia::Animation(gif) => crate::publisher::ResolvedMedia::Animation(gif),
        crate::publisher::ResolvedMedia::Video(_) => match &m.mp4_url {
            Some(mp4) => crate::publisher::ResolvedMedia::Video(mp4.clone()),
            None => crate::publisher::ResolvedMedia::Photo(m.preview_url.clone()),
        },
        _ => crate::publisher::ResolvedMedia::Photo(m.preview_url.clone()),
    }
}

/// The media of a fetched e621 post, or why there is none: a gone post
/// (unknown or restricted) is not found; the other fetch failures pass on.
pub fn resolved_media(source: &str, fetched: Result<E621PostMetadata, FetchError>) -> (r: Result<crate::publisher::ResolvedMedia, MediaResolveError>)
    ensures
        match fetched {
            Ok(m) => r is Ok && (r->Ok_0.kind_spec(), direct_url(r->Ok_0)) == e621_media_spec(m.file_url@, opt_chars(m.mp4_url)),
            Err(FetchError::NotFound(_)) | Err(FetchError::Unavailable(_)) => r is Err && r->Err_0 is NotFound
                && r->Err_0->NotFound_0@ == source@,
            Err(FetchError::RateLimit) => r is Err && r->Err_0 is Network,
            Err(FetchError::Network(msg)) => r is Err && r->Err_0 == MediaResolveError::Network(msg),
            Err(FetchError::Parse(msg)) => r is Err && r->Err_0 == MediaResolveError::Parse(msg),
        },
{
    match fetched {
        Ok(m) => Ok(e621_media(&m)),
        Err(FetchError::NotFound(_)) | Err(FetchError::Unavailable(_)) => Err(MediaResolveError::NotFound(source.to_owned())),
        Err(FetchError::RateLimit) => Err(MediaResolveError::Network("e621 rate limit".to_owned())),
        Err(FetchError::Network(msg)) => Err(MediaResolveError::Network(msg)),
        Err(FetchError::Parse(msg)) => Err(MediaResolveError::Parse(msg)),
    }
}

} // verus!
