//! URLs as the `url` crate reads them, and the choice of an artist's
//! preferred off-site source.

use vstd::prelude::*;
use crate::text::{first_idx, lemma_first_idx, lemma_first_idx_is, views};

verus! {

/// What `url::Url::parse` makes of a text: its serialization, its host,
/// and its path segments (`None` where the URL cannot hold a path); `None`
/// for a text it refuses.
pub uninterp spec fn url_parts(url: Seq<char>) -> Option<(Seq<char>, Option<Seq<char>>, Option<Seq<Seq<char>>>)>;

/// A parsed URL, taken apart.
pub struct ParsedUrl {
    pub text: String,
    pub host: Option<String>,
    pub segments: Option<Vec<String>>,
}

pub open spec fn opt_chars(o: Option<String>) -> Option<Seq<char>> {
    match o {
        Some(s) => Some(s@),
        None => None,
    }
}

pub open spec fn opt_words(o: Option<Vec<String>>) -> Option<Seq<Seq<char>>> {
    match o {
        Some(v) => Some(views(v@)),
        None => None,
    }
}

/// `url::Url::parse`, then `Url::as_str`, `Url::host_str` and
/// `Url::path_segments` on the result; nothing is claimed of the parts
/// beyond being what the crate returns for this text.
#[verifier::external_body]
pub(crate) fn parse_url(url: &str) -> (r: Option<ParsedUrl>)
    ensures
        match r {
            Some(p) => url_parts(url@) == Some((p.text@, opt_chars(p.host), opt_words(p.segments))),
            None => url_parts(url@) is None,
        },
{
    match url::Url::parse(url) {
        Ok(u) => Some(ParsedUrl {
            text: u.as_str().to_string(),
            host: u.host_str().map(|h| h.to_string()),
            segments: u.path_segments().map(|s| s.map(|x| x.to_string()).collect()),
        }),
        Err(_) => None,
    }
}

/// The path segments of a URL (`None` for an unparsable URL or one that
/// cannot hold a path).
pub open spec fn url_path_segments(url: Seq<char>) -> Option<Seq<Seq<char>>> {
    match url_parts(url) {
        Some(p) => p.2,
        None => None,
    }
}

pub fn path_segments(url: &str) -> (r: Option<Vec<String>>)
    ensures
        match r {
            Some(v) => url_path_segments(url@) == Some(views(v@)),
            None => url_path_segments(url@) is None,
        },
{
    match parse_url(url) {
        Some(p) => p.segments,
        None => None,
    }
}

// ----------------------------------------------------- artist sources ----

/// The hosts an artist's source is preferred from, most preferred first.
pub open spec fn preferred_hosts() -> Seq<Seq<char>> {
    seq!["twitter.com"@, "x.com"@, "furaffinity.net"@, "tumblr.com"@, "deviantart.com"@, "pixiv.net"@]
}

/// The declared sources that parse as URLs, in order, as (serialization,
/// host).
pub open spec fn parsed_sources(ss: Seq<Seq<char>>) -> Seq<(Seq<char>, Option<Seq<char>>)>
    decreases ss.len(),
{
    if ss.len() == 0 {
        seq![]
    } else {
        let prev = parsed_sources(ss.drop_last());
        match url_parts(ss.last()) {
            Some(p) => prev.push((p.0, p.1)),
            None => prev,
        }
    }
}

pub open spec fn ends_with(s: Seq<char>, suffix: Seq<char>) -> bool {
    suffix.len() <= s.len() && s.subrange(s.len() - suffix.len(), s.len() as int) == suffix
}

/// The URL's host ends with `host`.
pub open spec fn on_host(u: (Seq<char>, Option<Seq<char>>), host: Seq<char>) -> bool {
    u.1 is Some && ends_with(u.1->0, host)
}

/// The first URL on the first host (in preference order) that has one;
/// failing that the first URL at all.
pub open spec fn pick_by_hosts(ps: Seq<(Seq<char>, Option<Seq<char>>)>, hosts: Seq<Seq<char>>) -> Option<Seq<char>>
    decreases hosts.len(),
{
    if hosts.len() == 0 {
        if ps.len() > 0 { Some(ps[0].0) } else { None }
    } else {
        let i = first_idx(0, ps.len() as int, |k: int| on_host(ps[k], hosts[0]));
        if i < ps.len() {
            Some(ps[i].0)
        } else {
            pick_by_hosts(ps, hosts.drop_first())
        }
    }
}

/// The artist's preferred off-site source.
pub open spec fn preferred_source_spec(ss: Seq<Seq<char>>) -> Option<Seq<char>> {
    pick_by_hosts(parsed_sources(ss), preferred_hosts())
}

pub(crate) fn chars_end_with(s: &Vec<char>, suffix: &Vec<char>) -> (b: bool)
    ensures
        b == ends_with(s@, suffix@),
{
    if suffix.len() > s.len() {
        return false;
    }
    let off = s.len() - suffix.len();
    let mut k: usize = 0;
    while k < suffix.len()
        invariant
            off + suffix.len() == s.len(),
            k <= suffix.len(),
            forall|i: int| 0 <= i < k ==> s@[off + i] == suffix@[i],
        decreases suffix.len() - k,
    {
        if s[off + k] != suffix[k] {
            assert(s@.subrange(off as int, s.len() as int)[k as int] != suffix@[k as int]);
            return false;
        }
        k = k + 1;
    }
    assert(s@.subrange(off as int, s.len() as int) =~= suffix@);
    true
}

/// The artist's preferred off-site source among the declared ones: the
/// first on twitter.com, then x.com, furaffinity.net, tumblr.com,
/// deviantart.com, pixiv.net; failing those the first that parses.
pub fn preferred_artist_source(sources: &Vec<String>) -> (r: Option<String>)
    ensures
        opt_chars(r) == preferred_source_spec(views(sources@)),
{
    let ghost ss = views(sources@);
    let mut texts: Vec<String> = Vec::new();
    let mut hosts: Vec<Option<Vec<char>>> = Vec::new();
    let mut k: usize = 0;
    while k < sources.len()
        invariant
            k <= sources.len(),
            ss == views(sources@),
            texts.len() == hosts.len(),
            parsed_sources(ss.take(k as int)).len() == texts.len(),
            forall|i: int| 0 <= i < texts.len() ==> (#[trigger] parsed_sources(ss.take(k as int))[i]).0 == texts@[i]@
                && parsed_sources(ss.take(k as int))[i].1 == (match hosts@[i] { Some(h) => Some(h@), None => None::<Seq<char>> }),
        decreases sources.len() - k,
    {
        assert(ss.take(k + 1).drop_last() =~= ss.take(k as int));
        match parse_url(sources[k].as_str()) {
            Some(p) => {
                texts.push(p.text);
                hosts.push(match p.host {
                    Some(h) => Some(crate::text::chars_of(h.as_str())),
                    None => None,
                });
            },
            None => {},
        }
        k = k + 1;
    }
    assert(ss.take(sources.len() as int) =~= ss);
    let ghost ps = parsed_sources(ss);
    let preferred: [&str; 6] = ["twitter.com", "x.com", "furaffinity.net", "tumblr.com", "deviantart.com", "pixiv.net"];
    let ghost hs = preferred_hosts();
    assert(hs.subrange(0, 6) =~= hs);
    let mut h: usize = 0;
    while h < 6
        invariant
            h <= 6,
            ss == views(sources@),
            ps == parsed_sources(ss),
            hs == preferred_hosts(),
            texts.len() == hosts.len() == ps.len(),
            forall|i: int| 0 <= i < texts.len() ==> (#[trigger] ps[i]).0 == texts@[i]@
                && ps[i].1 == (match hosts@[i] { Some(h) => Some(h@), None => None::<Seq<char>> }),
            forall|i: int| 0 <= i < 6 ==> preferred@[i]@ == #[trigger] hs[i],
            pick_by_hosts(ps, hs) == pick_by_hosts(ps, hs.subrange(h as int, 6)),
        decreases 6 - h,
    {
        let host = crate::text::chars_of(preferred[h]);
        let ghost pred = |i: int| on_host(ps[i], hs[h as int]);
        proof {
            lemma_first_idx(0, ps.len() as int, pred);
        }
        let mut i: usize = 0;
        while i < texts.len()
            invariant
                h < 6,
                i <= texts.len() == hosts.len() == ps.len(),
                host@ == hs[h as int],
                hs == preferred_hosts(),
                ps == parsed_sources(ss),
                ss == views(sources@),
                pick_by_hosts(ps, hs) == pick_by_hosts(ps, hs.subrange(h as int, 6)),
                pred == (|i: int| on_host(ps[i], hs[h as int])),
                forall|x: int| 0 <= x < texts.len() ==> (#[trigger] ps[x]).0 == texts@[x]@
                    && ps[x].1 == (match hosts@[x] { Some(h) => Some(h@), None => None::<Seq<char>> }),
                forall|x: int| 0 <= x < i ==> !#[trigger] pred(x),
            decreases texts.len() - i,
        {
            let hit = match &hosts[i] {
                Some(hv) => chars_end_with(hv, &host),
                None => false,
            };
            if hit {
                proof {
                    assert(pred(i as int));
                    lemma_first_idx_is(0, i as int, ps.len() as int, pred);
                    let rest = hs.subrange(h as int, 6);
                    assert(rest[0] == hs[h as int]);
                    assert(rest.len() > 0);
                }
                return Some(texts[i].clone());
            }
            i = i + 1;
        }
        proof {
            lemma_first_idx_is(0, ps.len() as int, ps.len() as int, pred);
            let rest = hs.subrange(h as int, 6);
            assert(rest.drop_first() =~= hs.subrange(h + 1, 6));
            assert(rest[0] == hs[h as int]);
        }
        h = h + 1;
    }
    proof {
        assert(hs.subrange(6, 6) =~= Seq::<Seq<char>>::empty());
    }
    if texts.len() > 0 {
        Some(texts[0].clone())
    } else {
        None
    }
}

} // verus!
