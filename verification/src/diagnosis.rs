//! Per-poster diagnosis of one feed entry: for each configured poster, why
//! the entry was (or will be, or will never be) published there, judged
//! with the same refusal the live selector uses.

use vstd::prelude::*;
use crate::bot::{describe_user, describe_user_spec, differs_from, join_tags, strip_leading};
use crate::curation::{is_e621_source, is_e621_url};
use crate::handler::PostInfo;
use crate::links::opt_chars;
use crate::e621::{E621PostMetadata, FetchError};
use crate::feed::{opt_refusal, refusal_for, refusal_spec, refusal_text};
use crate::policy::InMemoryForbiddenTagRepository;
use crate::post::{feed_end_of, feed_window, post_views, InMemoryPostRepository, Post, PostId, PostStatus, PostView};
use crate::poster::{poster_views, InMemoryPosterRepository, Poster, PosterId, PosterView};
use crate::publisher::{config_for, InMemoryPublisherConfigRepository, Publication, PublisherConfig};
use crate::scheduler::{publish_code, publish_code_spec};
use crate::tag_rule::tag_set;
use crate::text::{join, join_with, chars_of, push_char, str_eq, trim_bounds, trimmed, decimal, first_idx, lemma_first_idx, push_decimal, push_signed_decimal, push_str, signed_decimal, views};

verus! {

/// A post status by its name.
pub open spec fn status_name(s: PostStatus) -> Seq<char> {
    match s {
        PostStatus::AwaitingModeration => "AwaitingModeration"@,
        PostStatus::Accepted => "Accepted"@,
        PostStatus::Rejected => "Rejected"@,
        PostStatus::Banned => "Banned"@,
        PostStatus::Deleted => "Deleted"@,
        PostStatus::MediaGone => "MediaGone"@,
    }
}

pub fn push_status(s: &mut String, st: PostStatus)
    ensures
        final(s)@ == old(s)@ + status_name(st),
{
    match st {
        PostStatus::AwaitingModeration => push_str(s, "AwaitingModeration"),
        PostStatus::Accepted => push_str(s, "Accepted"),
        PostStatus::Rejected => push_str(s, "Rejected"),
        PostStatus::Banned => push_str(s, "Banned"),
        PostStatus::Deleted => push_str(s, "Deleted"),
        PostStatus::MediaGone => push_str(s, "MediaGone"),
    }
}

/// A fetch failure that is not a gone post, in words (a gone post is
/// reported on its own).
pub open spec fn fetch_failure_text(e: FetchError) -> Seq<char> {
    match e {
        FetchError::RateLimit => "e621 rate limit hit"@,
        FetchError::Network(m) => "network error talking to e621: "@ + m@,
        FetchError::Parse(m) => "could not parse e621 response: "@ + m@,
        _ => Seq::empty(),
    }
}

/// The upstream post no longer exists (deleted, or hidden from us).
pub open spec fn is_gone(e: FetchError) -> bool {
    e is NotFound || e is Unavailable
}

/// An entry out of circulation: nothing will ever publish it.
pub open spec fn out_of_circulation(st: PostStatus) -> bool {
    st == PostStatus::Rejected || st == PostStatus::Deleted
}

/// Whether the diagnosis reads the entry's live e621 tags: only for an
/// e621 entry that is in the feed and still in circulation.
pub open spec fn needs_upstream_spec(post: PostView) -> bool {
    post.feed_position is Some && !out_of_circulation(post.status) && is_e621_source(post.source)
}

/// The tags an entry is judged on: live ones for an e621 entry, the curated
/// ones otherwise.
pub open spec fn judged_tags(post: PostView, upstream: Option<Result<E621PostMetadata, FetchError>>) -> Seq<Seq<char>> {
    if is_e621_source(post.source) {
        match upstream {
            Some(Ok(m)) => views(m.tags@),
            _ => post.tags,
        }
    } else {
        post.tags
    }
}

pub open spec fn forbidden_at(global: Set<Seq<char>>, ts: Seq<Seq<char>>) -> spec_fn(int) -> bool {
    |i: int| global.contains(ts[i])
}

pub open spec fn chat_of(configs: Seq<PublisherConfig>, id: crate::poster::PosterId) -> Option<i64> {
    match config_for(configs, id) {
        Some(c) => Some(c.chat_id),
        None => None,
    }
}

/// Some delivery of the entry landed in this chat.
pub open spec fn published_in(pubs: Seq<Publication>, chat: i64) -> bool {
    exists|i: int| 0 <= i < pubs.len() && pubs[i].chat_id == chat
}

pub open spec fn place_text(chat: Option<i64>) -> Seq<char> {
    match chat {
        Some(c) => "chat "@ + signed_decimal(c as int),
        None => "UNBOUND"@,
    }
}

/// One poster's verdict on an entry at `position`.
pub open spec fn verdict_of(
    p: PosterView,
    tags: Set<Seq<char>>,
    chat: Option<i64>,
    pubs: Seq<Publication>,
    position: u64,
) -> Seq<char> {
    if chat is Some && published_in(pubs, chat->0) {
        "✅ published here"@
    } else {
        match refusal_spec(p, tags) {
            Some(r) => "⛔ "@ + refusal_text(r),
            None => if chat is None {
                "⏸ eligible, but the poster has no channel"@
            } else if p.cursor >= position {
                "⏭ missed — cursor "@ + decimal(p.cursor as nat) + " is already past position "@
                    + decimal(position as nat) + " (eligible now; it was skipped or unpostable when scanned)"@
            } else {
                "⏳ queued — cursor "@ + decimal(p.cursor as nat) + " of "@ + decimal(position as nat)
                    + ", posts on an upcoming tick"@
            },
        }
    }
}

pub open spec fn poster_line(
    p: PosterView,
    tags: Set<Seq<char>>,
    configs: Seq<PublisherConfig>,
    pubs: Seq<Publication>,
    position: u64,
) -> Seq<char> {
    "  #"@ + decimal(p.id.0 as nat) + " ("@ + place_text(chat_of(configs, p.id)) + "): "@
        + verdict_of(p, tags, chat_of(configs, p.id), pubs, position)
}

/// The whole diagnosis, line by line.
pub open spec fn verdict_lines(
    post: PostView,
    upstream: Option<Result<E621PostMetadata, FetchError>>,
    global: Set<Seq<char>>,
    posters: Seq<PosterView>,
    configs: Seq<PublisherConfig>,
    pubs: Seq<Publication>,
) -> Seq<Seq<char>> {
    match post.feed_position {
        None => seq!["Posters: not in the feed ("@ + status_name(post.status) + ") — nothing publishes it."@],
        Some(position) => if out_of_circulation(post.status) {
            seq!["Posters: "@ + status_name(post.status) + " — out of circulation, nothing publishes it."@]
        } else if is_e621_source(post.source) && (upstream matches Some(Err(e)) && is_gone(e)) {
            seq!["Posters: upstream post is gone (deleted/DNP) — every poster skips it."@]
        } else if is_e621_source(post.source) && (upstream matches Some(Err(_))) {
            seq!["Posters: diagnosis unavailable, e621 fetch failed: "@ + fetch_failure_text(upstream->0->Err_0)]
        } else {
            let ts = judged_tags(post, upstream);
            let hit = first_idx(0, ts.len() as int, forbidden_at(global, ts));
            if hit < ts.len() {
                seq!["Posters: globally forbidden tag `"@ + ts[hit] + "` — Banned for every poster."@]
            } else if posters.len() == 0 {
                seq!["Posters: none configured."@]
            } else {
                seq!["Posters:"@] + Seq::new(
                    posters.len(),
                    |i: int| poster_line(posters[i], ts.to_set(), configs, pubs, position),
                )
            }
        },
    }
}

/// Whether [`poster_verdicts`] needs the entry's live e621 metadata.
pub fn needs_upstream(post: &Post) -> (b: bool)
    ensures
        b == needs_upstream_spec(post@),
{
    post.feed_position.is_some() && !(post.status == PostStatus::Rejected || post.status == PostStatus::Deleted)
        && is_e621_url(post.source.as_str())
}

fn published_in_chat(pubs: &Vec<Publication>, chat: i64) -> (b: bool)
    ensures
        b == published_in(pubs@, chat),
{
    let mut k: usize = 0;
    while k < pubs.len()
        invariant
            k <= pubs.len(),
            forall|i: int| 0 <= i < k ==> pubs@[i].chat_id != chat,
        decreases pubs.len() - k,
    {
        if pubs[k].chat_id == chat {
            return true;
        }
        k = k + 1;
    }
    false
}

fn verdict_line(
    poster: &Poster,
    tags: &Vec<String>,
    configs: &InMemoryPublisherConfigRepository,
    pubs: &Vec<Publication>,
    position: u64,
) -> (s: String)
    ensures
        s@ == poster_line(poster@, tag_set(tags@), configs@, pubs@, position),
{
    let chat = match configs.find_by_poster(poster.id) {
        Some(c) => Some(c.chat_id),
        None => None,
    };
    let mut s = String::new();
    push_str(&mut s, "  #");
    push_decimal(&mut s, poster.id.0);
    push_str(&mut s, " (");
    match chat {
        Some(c) => {
            push_str(&mut s, "chat ");
            push_signed_decimal(&mut s, c);
        },
        None => push_str(&mut s, "UNBOUND"),
    }
    push_str(&mut s, "): ");
    let here = match chat {
        Some(c) => published_in_chat(pubs, c),
        None => false,
    };
    if here {
        push_str(&mut s, "✅ published here");
        return s;
    }
    match refusal_for(poster, tags.as_slice()) {
        Some(r) => {
            push_str(&mut s, "⛔ ");
            let text = r.to_string();
            push_str(&mut s, text.as_str());
        },
        None => {
            if chat.is_none() {
                push_str(&mut s, "⏸ eligible, but the poster has no channel");
            } else if poster.cursor >= position {
                push_str(&mut s, "⏭ missed — cursor ");
                push_decimal(&mut s, poster.cursor);
                push_str(&mut s, " is already past position ");
                push_decimal(&mut s, position);
                push_str(&mut s, " (eligible now; it was skipped or unpostable when scanned)");
            } else {
                push_str(&mut s, "⏳ queued — cursor ");
                push_decimal(&mut s, poster.cursor);
                push_str(&mut s, " of ");
                push_decimal(&mut s, position);
                push_str(&mut s, ", posts on an upcoming tick");
            }
        },
    }
    s
}

/// For each configured poster, why this entry was or will be published
/// there, or why it never will. `upstream` is the entry's e621 fetch, made
/// where [`needs_upstream`] says so; `publications` are the entry's own
/// deliveries.
pub fn poster_verdicts(
    post: &Post,
    upstream: Option<Result<E621PostMetadata, FetchError>>,
    forbidden: &InMemoryForbiddenTagRepository,
    posters: &InMemoryPosterRepository,
    configs: &InMemoryPublisherConfigRepository,
    publications: &Vec<Publication>,
) -> (lines: Vec<String>)
    requires
        needs_upstream_spec(post@) ==> upstream is Some,
    ensures
        views(lines@) == verdict_lines(post@, upstream, forbidden@.dom(), posters@, configs@, publications@),
{
    let ghost spec = verdict_lines(post@, upstream, forbidden@.dom(), posters@, configs@, publications@);
    let mut lines: Vec<String> = Vec::new();
    let position = match post.feed_position {
        None => {
            let mut s = String::new();
            push_str(&mut s, "Posters: not in the feed (");
            push_status(&mut s, post.status);
            push_str(&mut s, ") — nothing publishes it.");
            lines.push(s);
            assert(views(lines@) =~= spec);
            return lines;
        },
        Some(p) => p,
    };
    if post.status == PostStatus::Rejected || post.status == PostStatus::Deleted {
        let mut s = String::new();
        push_str(&mut s, "Posters: ");
        push_status(&mut s, post.status);
        push_str(&mut s, " — out of circulation, nothing publishes it.");
        lines.push(s);
        assert(views(lines@) =~= spec);
        return lines;
    }
    let ghost up = upstream;
    let e621 = is_e621_url(post.source.as_str());
    let tags: Vec<String> = if e621 {
        match upstream {
            Some(Ok(m)) => m.tags,
            Some(Err(e)) => {
                let ghost err = e;
                let gone = match e {
                    FetchError::NotFound(_) | FetchError::Unavailable(_) => true,
                    _ => false,
                };
                let mut s = String::new();
                if gone {
                    push_str(&mut s, "Posters: upstream post is gone (deleted/DNP) — every poster skips it.");
                } else {
                    let mut detail = String::new();
                    match e {
                        FetchError::RateLimit => push_str(&mut detail, "e621 rate limit hit"),
                        FetchError::Network(m) => {
                            push_str(&mut detail, "network error talking to e621: ");
                            push_str(&mut detail, m.as_str());
                        },
                        FetchError::Parse(m) => {
                            push_str(&mut detail, "could not parse e621 response: ");
                            push_str(&mut detail, m.as_str());
                        },
                        _ => {},
                    }
                    assert(detail@ == fetch_failure_text(err));
                    push_str(&mut s, "Posters: diagnosis unavailable, e621 fetch failed: ");
                    push_str(&mut s, detail.as_str());
                }
                lines.push(s);
                assert(up == Some(Err::<E621PostMetadata, FetchError>(err)));
                assert(views(lines@) =~= spec);
                return lines;
            },
            None => crate::text::clone_strings(&post.tags),
        }
    } else {
        crate::text::clone_strings(&post.tags)
    };
    let ghost ts = views(tags@);
    assert(ts == judged_tags(post@, upstream));
    let ghost pred = forbidden_at(forbidden@.dom(), ts);
    proof {
        lemma_first_idx(0, ts.len() as int, pred);
    }
    let mut k: usize = 0;
    while k < tags.len()
        invariant
            k <= tags.len(),
            ts == views(tags@),
            pred == forbidden_at(forbidden@.dom(), ts),
            forall|i: int| 0 <= i < k ==> !#[trigger] pred(i),
            lines@.len() == 0,
            spec == verdict_lines(post@, upstream, forbidden@.dom(), posters@, configs@, publications@),
            up == upstream,
            post.feed_position == Some(position),
            !out_of_circulation(post.status),
            ts == judged_tags(post@, up),
            !(is_e621_source(post@.source) && (up matches Some(Err(_)))),
        decreases tags.len() - k,
    {
        if forbidden.contains(tags[k].as_str()) {
            proof {
                crate::text::lemma_first_idx_is(0, k as int, ts.len() as int, pred);
            }
            let mut s = String::new();
            push_str(&mut s, "Posters: globally forbidden tag `");
            push_str(&mut s, tags[k].as_str());
            push_str(&mut s, "` — Banned for every poster.");
            lines.push(s);
            assert(views(lines@) =~= spec);
            return lines;
        }
        k = k + 1;
    }
    proof {
        crate::text::lemma_first_idx_is(0, ts.len() as int, ts.len() as int, pred);
    }
    let all = posters.list_all();
    if all.len() == 0 {
        lines.push("Posters: none configured.".to_owned());
        assert(views(lines@) =~= spec);
        return lines;
    }
    lines.push("Posters:".to_owned());
    let mut j: usize = 0;
    while j < all.len()
        invariant
            j <= all.len(),
            poster_views(all@) == posters@,
            ts == views(tags@),
            lines@.len() == j + 1,
            views(lines@)[0] == "Posters:"@,
            forall|i: int| 0 <= i < j ==> views(lines@)[i + 1]
                == poster_line(posters@[i], ts.to_set(), configs@, publications@, position),
        decreases all.len() - j,
    {
        let line = verdict_line(&all[j], &tags, configs, publications, position);
        proof {
            assert(poster_views(all@)[j as int] == all@[j as int]@);
        }
        lines.push(line);
        proof {
            assert forall|i: int| 0 <= i < j + 1 implies views(lines@)[i + 1]
                == poster_line(posters@[i], ts.to_set(), configs@, publications@, position) by {
                assert(views(lines@)[i + 1] == lines@[i + 1]@);
            }
        }
        j = j + 1;
    }
    assert(views(lines@) =~= spec);
    lines
}

// --------------------------------------------------- publication codes ----

pub open spec fn upper_char(c: char) -> char {
    if 'a' <= c && c <= 'z' {
        ((c as u32) - 32) as char
    } else {
        c
    }
}

/// What a typed code reads as: trimmed, `#`s dropped, upper-cased (ASCII).
pub open spec fn code_query(raw: Seq<char>) -> Seq<char> {
    strip_leading(trimmed(raw), '#').map_values(|c: char| upper_char(c))
}

pub open spec fn is_code_char(c: char) -> bool {
    ('0' <= c && c <= '9') || ('A' <= c && c <= 'Z')
}

/// Shaped like a publication code: eight ASCII letters or digits.
pub open spec fn code_shaped(c: Seq<char>) -> bool {
    c.len() == 8 && forall|i: int| 0 <= i < c.len() ==> is_code_char(#[trigger] c[i])
}

#[verifier::opaque]
pub open spec fn code_for(p: PostView, q: PosterView) -> Seq<char> {
    publish_code_spec(p.source, q.id)
}

/// Some poster's publication code for this entry is `code`.
pub open spec fn carries_code(p: PostView, posters: Seq<PosterView>, code: Seq<char>) -> bool {
    exists|j: int| 0 <= j < posters.len() && #[trigger] code_for(p, posters[j]) == code
}

/// The first entry, in feed order, that some poster publishes under `code`.
pub open spec fn code_owner(entries: Seq<PostView>, posters: Seq<PosterView>, code: Seq<char>) -> Option<PostId> {
    let i = first_idx(0, entries.len() as int, |i: int| carries_code(entries[i], posters, code));
    if i < entries.len() {
        Some(entries[i].id)
    } else {
        None
    }
}

fn code_query_of(raw: &str) -> (q: String)
    ensures
        q@ == code_query(raw@),
{
    let v = chars_of(raw);
    let (a, b) = trim_bounds(&v);
    let ghost t = v@.subrange(a as int, b as int);
    let ghost p = differs_from(t, '#');
    let mut i = a;
    while i < b && v[i] == '#'
        invariant
            a <= i <= b <= v.len(),
            t == v@.subrange(a as int, b as int),
            p == differs_from(t, '#'),
            forall|q: int| 0 <= q < i - a ==> !#[trigger] p(q),
        decreases b - i,
    {
        i = i + 1;
    }
    proof {
        crate::text::lemma_first_idx_is(0, i - a, t.len() as int, p);
        assert(t.skip(i - a) =~= v@.subrange(i as int, b as int));
    }
    let ghost s = v@.subrange(i as int, b as int);
    assert(strip_leading(trimmed(raw@), '#') == s);
    let mut q = String::new();
    let mut k = i;
    while k < b
        invariant
            i <= k <= b <= v.len(),
            s == v@.subrange(i as int, b as int),
            q@ == s.take(k - i).map_values(|c: char| upper_char(c)),
        decreases b - k,
    {
        let c = v[k];
        let u = if 'a' <= c && c <= 'z' { ((c as u8) - 32) as char } else { c };
        assert(u == upper_char(c)) by {
            if 'a' <= c && c <= 'z' {
                assert((c as u8) as u32 == c as u32);
            }
        }
        push_char(&mut q, u);
        assert(s.take(k + 1 - i) =~= s.take(k - i).push(c));
        assert(q@ =~= s.take(k + 1 - i).map_values(|c: char| upper_char(c)));
        k = k + 1;
    }
    assert(s.take(b - i) =~= s);
    q
}

fn shaped(q: &String) -> (b: bool)
    ensures
        b == code_shaped(q@),
{
    let v = chars_of(q.as_str());
    if v.len() != 8 {
        return false;
    }
    let mut k: usize = 0;
    while k < v.len()
        invariant
            k <= v.len(),
            v@ == q@,
            forall|i: int| 0 <= i < k ==> is_code_char(#[trigger] v@[i]),
        decreases v.len() - k,
    {
        let c = v[k];
        if !(('0' <= c && c <= '9') || ('A' <= c && c <= 'Z')) {
            return false;
        }
        k = k + 1;
    }
    true
}

/// The feed entry a publication code (as typed: `#7K3M9QZA`, any case)
/// stands for, found by recomputing the code of every (entry, poster) pair;
/// `None` when the text is not shaped like a code or nothing matches.
pub fn resolve_publish_code(
    raw: &str,
    posts: &InMemoryPostRepository,
    posters: &InMemoryPosterRepository,
) -> (r: Option<PostId>)
    ensures
        r == (if code_shaped(code_query(raw@)) {
            code_owner(feed_window(posts@, 0, feed_end_of(posts@) as int), posters@, code_query(raw@))
        } else {
            None
        }),
{
    let code = code_query_of(raw);
    if !shaped(&code) {
        return None;
    }
    let end = posts.feed_end();
    let entries = posts.feed_after(0, end);
    let all = posters.list_all();
    let ghost es = post_views(entries@);
    let ghost ps = poster_views(all@);
    let ghost pred = |i: int| carries_code(es[i], ps, code@);
    proof {
        lemma_first_idx(0, es.len() as int, pred);
    }
    let mut i: usize = 0;
    while i < entries.len()
        invariant
            i <= entries.len(),
            es == post_views(entries@),
            ps == poster_views(all@),
            ps == posters@,
            pred == (|i: int| carries_code(es[i], ps, code@)),
            forall|x: int| 0 <= x < i ==> !#[trigger] pred(x),
            es == feed_window(posts@, 0, feed_end_of(posts@) as int),
            code@ == code_query(raw@),
            code_shaped(code@),
        decreases entries.len() - i,
    {
        let mut j: usize = 0;
        while j < all.len()
            invariant
                i < entries.len(),
                j <= all.len(),
                es == post_views(entries@),
                ps == poster_views(all@),
                forall|y: int| 0 <= y < j ==> #[trigger] code_for(es[i as int], ps[y]) != code@,
                pred == (|i: int| carries_code(es[i], ps, code@)),
                forall|x: int| 0 <= x < i ==> !#[trigger] pred(x),
                es == feed_window(posts@, 0, feed_end_of(posts@) as int),
                ps == posters@,
                code@ == code_query(raw@),
                code_shaped(code@),
            decreases all.len() - j,
        {
            let c = publish_code(&entries[i], all[j].id);
            proof {
                assert(es[i as int] == entries@[i as int]@);
                assert(ps[j as int] == all@[j as int]@);
                assert(code_for(es[i as int], ps[j as int]) == c@) by {
                    reveal(code_for);
                }
            }
            if str_eq(c.as_str(), code.as_str()) {
                proof {
                    assert(pred(i as int));
                    crate::text::lemma_first_idx_is(0, i as int, es.len() as int, pred);
                    assert(es[i as int].id == entries@[i as int].id);
                }
                return Some(entries[i].id);
            }
            j = j + 1;
        }
        assert(!pred(i as int)) by {
            if carries_code(es[i as int], ps, code@) {
                let y = choose|y: int| 0 <= y < ps.len() && #[trigger] code_for(es[i as int], ps[y]) == code@;
                assert(code_for(es[i as int], ps[y]) != code@);
            }
        }
        i = i + 1;
    }
    proof {
        crate::text::lemma_first_idx_is(0, es.len() as int, es.len() as int, pred);
    }
    None
}

// ------------------------------------------------------------ postinfo ----

/// An instant (milliseconds since the Unix epoch) as chrono writes it in
/// the `%Y-%m-%d %H:%M UTC` form; `None` outside chrono's range.
pub uninterp spec fn utc_minute_text(ms: i64) -> Option<Seq<char>>;

/// `chrono::DateTime::from_timestamp_millis`, then `format` with
/// `%Y-%m-%d %H:%M UTC`; nothing is claimed of the text beyond being what
/// the crate writes for this instant.
#[verifier::external_body]
fn utc_minute(ms: i64) -> (r: Option<String>)
    ensures
        opt_chars(r) == utc_minute_text(ms),
{
    chrono::DateTime::from_timestamp_millis(ms).map(|d| d.format("%Y-%m-%d %H:%M UTC").to_string())
}

/// An instant as `/postinfo` shows it (the raw milliseconds when chrono
/// cannot place it).
pub open spec fn stamp(ms: i64) -> Seq<char> {
    match utc_minute_text(ms) {
        Some(t) => t,
        None => signed_decimal(ms as int) + " ms"@,
    }
}

fn push_stamp(s: &mut String, ms: i64)
    ensures
        final(s)@ == old(s)@ + stamp(ms),
{
    match utc_minute(ms) {
        Some(t) => push_str(s, t.as_str()),
        None => {
            let ghost before = s@;
            push_signed_decimal(s, ms);
            push_str(s, " ms");
            assert(s@ =~= before + stamp(ms));
        },
    }
}

pub open spec fn delivery_line(p: Publication) -> Seq<char> {
    "  • chat "@ + signed_decimal(p.chat_id as int) + " msg "@ + signed_decimal(p.message_id as int) + " at "@
        + stamp(p.published_at)
}

/// The audit lines above the per-poster diagnosis.
pub open spec fn postinfo_head(info: PostInfo) -> Seq<Seq<char>> {
    let p = info.post@;
    let pubs = info.publications@;
    seq![
        "Post #"@ + decimal(p.id.0 as nat) + " — "@ + status_name(p.status) + match p.feed_position {
            Some(pos) => " (feed position "@ + decimal(pos as nat) + ")"@,
            None => ""@,
        },
        "Source: "@ + p.source,
        "Submitted: "@ + stamp(p.submitted_at) + " by "@ + describe_user_spec(info.submitter),
        match p.moderated_at {
            Some(at) => "Moderated: "@ + stamp(at) + " by "@ + describe_user_spec(info.moderator),
            None => "Moderated: —"@,
        },
        "Tags ("@ + decimal(p.tags.len()) + "): "@ + join(p.tags, seq![' ']),
        "Artists: "@ + if p.artists.len() == 0 { "—"@ } else { join(p.artists, ", "@) },
        "Last posted: "@ + match p.last_posted {
            Some(at) => stamp(at),
            None => "never"@,
        },
        "Reports: "@ + decimal(info.report_count as nat),
    ] + (if pubs.len() == 0 {
        seq!["Published: never"@]
    } else {
        seq!["Published "@ + decimal(pubs.len()) + " time(s):"@] + Seq::new(pubs.len(), |i: int| delivery_line(pubs[i]))
    }) + seq![""@]
}

/// The whole `/postinfo` answer: the audit lines, a blank line, then the
/// per-poster diagnosis.
pub open spec fn postinfo_spec(
    info: PostInfo,
    upstream: Option<Result<E621PostMetadata, FetchError>>,
    global: Set<Seq<char>>,
    posters: Seq<PosterView>,
    configs: Seq<PublisherConfig>,
) -> Seq<char> {
    join(postinfo_head(info) + verdict_lines(info.post@, upstream, global, posters, configs, info.publications@), seq!['\n'])
}

fn head_lines(info: &PostInfo) -> (lines: Vec<String>)
    ensures
        views(lines@) == postinfo_head(*info),
{
    let p = &info.post;
    let ghost want = postinfo_head(*info);
    let mut lines: Vec<String> = Vec::new();

    let mut s = String::new();
    push_str(&mut s, "Post #");
    push_decimal(&mut s, p.id.0);
    push_str(&mut s, " — ");
    push_status(&mut s, p.status);
    let ghost before = s@;
    match p.feed_position {
        Some(pos) => {
            push_str(&mut s, " (feed position ");
            push_decimal(&mut s, pos);
            push_str(&mut s, ")");
        },
        None => {
            assert(s@ =~= before + ""@) by {
                reveal_strlit("");
            }
        },
    }
    assert(s@ =~= want[0]);
    lines.push(s);

    let mut s = String::new();
    push_str(&mut s, "Source: ");
    push_str(&mut s, p.source.as_str());
    lines.push(s);

    let mut s = String::new();
    push_str(&mut s, "Submitted: ");
    push_stamp(&mut s, p.submitted_at);
    push_str(&mut s, " by ");
    let who = describe_user(&info.submitter);
    push_str(&mut s, who.as_str());
    lines.push(s);

    let mut s = String::new();
    match p.moderated_at {
        Some(at) => {
            push_str(&mut s, "Moderated: ");
            push_stamp(&mut s, at);
            push_str(&mut s, " by ");
            let who = describe_user(&info.moderator);
            push_str(&mut s, who.as_str());
        },
        None => push_str(&mut s, "Moderated: —"),
    }
    lines.push(s);

    let mut s = String::new();
    push_str(&mut s, "Tags (");
    push_decimal(&mut s, p.tags.len() as u64);
    push_str(&mut s, "): ");
    let tags = join_tags(&p.tags);
    push_str(&mut s, tags.as_str());
    lines.push(s);

    let mut s = String::new();
    push_str(&mut s, "Artists: ");
    if p.artists.len() == 0 {
        push_str(&mut s, "—");
    } else {
        let artists = join_with(&p.artists, ", ");
        push_str(&mut s, artists.as_str());
    }
    lines.push(s);

    let mut s = String::new();
    push_str(&mut s, "Last posted: ");
    match p.last_posted {
        Some(at) => push_stamp(&mut s, at),
        None => push_str(&mut s, "never"),
    }
    lines.push(s);

    let mut s = String::new();
    push_str(&mut s, "Reports: ");
    push_decimal(&mut s, info.report_count);
    lines.push(s);
    assert(views(lines@) =~= want.take(8));

    let pubs = &info.publications;
    proof {
        assert(want.len() == 10 + pubs@.len());
        assert(want[want.len() - 1] == ""@);
    }
    if pubs.len() == 0 {
        lines.push("Published: never".to_owned());
        assert(views(lines@) =~= want.take(9));
    } else {
        let mut s = String::new();
        push_str(&mut s, "Published ");
        push_decimal(&mut s, pubs.len() as u64);
        push_str(&mut s, " time(s):");
        lines.push(s);
        assert(views(lines@) =~= want.take(9));
        proof {
            let p = info.post@;
            let pv = info.publications@;
            let b: Seq<Seq<char>> = seq!["Published "@ + decimal(pv.len()) + " time(s):"@]
                + Seq::new(pv.len(), |i: int| delivery_line(pv[i]));
            let a = want.take(8);
            assert(want =~= a + b + seq![""@]);
            assert forall|i: int| 0 <= i < pv.len() implies want[9 + i] == delivery_line(pv[i]) by {
                assert((a + b + seq![""@])[9 + i] == b[1 + i]);
            }
            assert(want[want.len() - 1] == ""@);
        }
        let mut k: usize = 0;
        while k < pubs.len()
            invariant
                k <= pubs.len(),
                pubs@ == info.publications@,
                want == postinfo_head(*info),
                want.len() == 10 + pubs.len(),
                views(lines@) == want.take(9 + k),
                forall|i: int| 0 <= i < pubs.len() ==> want[9 + i] == delivery_line(#[trigger] pubs@[i]),
            decreases pubs.len() - k,
        {
            let d = pubs[k];
            let mut s = String::new();
            push_str(&mut s, "  • chat ");
            push_signed_decimal(&mut s, d.chat_id);
            push_str(&mut s, " msg ");
            push_signed_decimal(&mut s, d.message_id as i64);
            push_str(&mut s, " at ");
            push_stamp(&mut s, d.published_at);
            assert(s@ =~= delivery_line(d));
            assert(want[9 + k] == delivery_line(pubs@[k as int]));
            let ghost before = views(lines@);
            lines.push(s);
            assert(want.take(9 + k + 1) =~= want.take(9 + k).push(want[9 + k]));
            assert(views(lines@) =~= before.push(s@));
            k = k + 1;
        }
    }
    let ghost before = views(lines@);
    assert(before == want.take(want.len() - 1));
    let blank = String::new();
    proof {
        reveal_strlit("");
        assert(blank@ =~= ""@);
    }
    lines.push(blank);
    assert(views(lines@) =~= before.push(""@));
    assert(views(lines@) =~= want);
    lines
}

/// `/postinfo`'s answer for an audited post. `upstream` is the post's e621
/// fetch, made where [`needs_upstream`] says so.
pub fn postinfo_text(
    info: &PostInfo,
    upstream: Option<Result<E621PostMetadata, FetchError>>,
    forbidden: &InMemoryForbiddenTagRepository,
    posters: &InMemoryPosterRepository,
    configs: &InMemoryPublisherConfigRepository,
) -> (s: String)
    requires
        needs_upstream_spec(info.post@) ==> upstream is Some,
    ensures
        s@ == postinfo_spec(*info, upstream, forbidden@.dom(), posters@, configs@),
{
    let mut lines = head_lines(info);
    let ghost head = views(lines@);
    let mut verdicts = poster_verdicts(&info.post, upstream, forbidden, posters, configs, &info.publications);
    let ghost tail = views(verdicts@);
    lines.append(&mut verdicts);
    assert(views(lines@) =~= head + tail);
    proof {
        reveal_strlit("\n");
        assert("\n"@ =~= seq!['\n']);
    }
    join_with(&lines, "\n")
}

/// The post a `/postinfo` argument names: a post id (`42`, `#42`) or a
/// publication code (`#7K3M9QZA`).
pub fn postinfo_target(arg: &str, posts: &InMemoryPostRepository, posters: &InMemoryPosterRepository) -> (r: Option<PostId>)
    ensures
        r == match crate::bot::post_id_spec(arg@) {
            Some(id) => Some(id),
            None => if code_shaped(code_query(arg@)) {
                code_owner(feed_window(posts@, 0, feed_end_of(posts@) as int), posters@, code_query(arg@))
            } else {
                None
            },
        },
{
    match crate::bot::parse_post_id(arg) {
        Some(id) => Some(id),
        None => resolve_publish_code(arg, posts, posters),
    }
}

} // verus!
