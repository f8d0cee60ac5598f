//! `/suggest`: which sources are accepted, the post a submission makes
//! once its tags are known, and the messages to the submitter and to the
//! moderators.

use vstd::prelude::*;
use crate::curation::{is_e621_source, SimilarPost};
use crate::e621::{extract_post_id, post_id_in, E621PostMetadata};
use crate::handler::{describe, describe_spec, reviewers_of, reviewers_spec, HandlerError};
use crate::links::{chars_end_with, ends_with, parse_url, url_parts, url_path_segments};
use crate::moderation::merged_tags;
use crate::policy::{reason_view, InMemoryForbiddenTagRepository};
use crate::post::{post_by_source, InMemoryPostRepository, Post, PostId, PostStatus, PostView};
use crate::text::{
    chars_of, clone_strings, contains_string, decimal, first_idx, join, join_with, lemma_first_idx,
    lemma_first_idx_is, push_decimal, push_signed_decimal, push_str, signed_decimal, views,
};
use crate::user::{User, UserId};

verus! {

/// The hosts a submission may come from (any subdomain of them).
pub open spec fn supported_hosts() -> Seq<Seq<char>> {
    seq!["e621.net"@, "furaffinity.net"@, "twitter.com"@, "x.com"@, "bsky.app"@, "deviantart.com"@, "t.me"@]
}

pub open spec fn host_supported(h: Seq<char>) -> bool {
    exists|i: int| 0 <= i < supported_hosts().len() && ends_with(h, #[trigger] supported_hosts()[i])
}

/// Every supported site is accepted for its host: a host that is, or is a
/// subdomain of, e621.net, furaffinity.net, twitter.com, x.com, bsky.app,
/// deviantart.com or t.me passes the host check.
pub proof fn lemma_supported_sites(h: Seq<char>)
    requires
        ends_with(h, "e621.net"@) || ends_with(h, "furaffinity.net"@) || ends_with(h, "twitter.com"@)
            || ends_with(h, "x.com"@) || ends_with(h, "bsky.app"@) || ends_with(h, "deviantart.com"@)
            || ends_with(h, "t.me"@),
    ensures
        host_supported(h),
{
    let s = supported_hosts();
    assert(s[0] == "e621.net"@);
    assert(s[1] == "furaffinity.net"@);
    assert(s[2] == "twitter.com"@);
    assert(s[3] == "x.com"@);
    assert(s[4] == "bsky.app"@);
    assert(s[5] == "deviantart.com"@);
    assert(s[6] == "t.me"@);
}

/// Only those sites are: a host ending in none of e621.net,
/// furaffinity.net, twitter.com, x.com, bsky.app, deviantart.com or t.me
/// fails the host check.
pub proof fn lemma_other_sites_refused(h: Seq<char>)
    requires
        !(ends_with(h, "e621.net"@) || ends_with(h, "furaffinity.net"@) || ends_with(h, "twitter.com"@)
            || ends_with(h, "x.com"@) || ends_with(h, "bsky.app"@) || ends_with(h, "deviantart.com"@)
            || ends_with(h, "t.me"@)),
    ensures
        !host_supported(h),
{
    let s = supported_hosts();
    assert forall|i: int| 0 <= i < s.len() implies !ends_with(h, #[trigger] s[i]) by {
        assert(s[0] == "e621.net"@);
        assert(s[1] == "furaffinity.net"@);
        assert(s[2] == "twitter.com"@);
        assert(s[3] == "x.com"@);
        assert(s[4] == "bsky.app"@);
        assert(s[5] == "deviantart.com"@);
        assert(s[6] == "t.me"@);
    }
}

/// A readable URL on a supported site other than e621 is never refused as
/// invalid: a banned submitter is turned away, a known source is a
/// duplicate, and otherwise it is ready, or waits for its tags.
pub proof fn lemma_supported_sites_accepted(raw: Seq<char>, tags_given: bool, banned: bool, posts: Seq<PostView>)
    requires
        url_parts(raw) matches Some(p) && p.1 matches Some(h) && !is_e621_source(p.0) && (
            ends_with(h, "e621.net"@) || ends_with(h, "furaffinity.net"@) || ends_with(h, "twitter.com"@)
                || ends_with(h, "x.com"@) || ends_with(h, "bsky.app"@) || ends_with(h, "deviantart.com"@)
                || ends_with(h, "t.me"@)),
    ensures
        url_parts(raw) matches Some(p) && submit_gate_spec(raw, tags_given, banned, posts) == (if banned {
            SubmitGateView::Banned
        } else {
            match post_by_source(posts, p.0) {
                Some(q) => SubmitGateView::Duplicate(q.id),
                None => if tags_given {
                    SubmitGateView::Ready { source: p.0 }
                } else {
                    SubmitGateView::NeedsTags
                },
            }
        }),
{
    if let Some(p) = url_parts(raw) {
        if let Some(h) = p.1 {
            lemma_supported_sites(h);
        }
    }
}

/// Where a submission stands before any post is made.
#[derive(Debug)]
pub enum SubmitGate {
    /// Not a URL from a supported site.
    Invalid,
    /// The submitter is banned from submitting.
    Banned,
    /// This (normalized) source is already a post.
    Duplicate(PostId),
    /// An e621 post: fetch its metadata (tags, artists, pools), then create.
    FetchE621 { source: String, e621_id: u64 },
    /// Another site and no tags given: ask for them.
    NeedsTags,
    /// Another site with tags: create the post.
    Ready { source: String },
}

pub enum SubmitGateView {
    Invalid,
    Banned,
    Duplicate(PostId),
    FetchE621 { source: Seq<char>, e621_id: u64 },
    NeedsTags,
    Ready { source: Seq<char> },
}

impl View for SubmitGate {
    type V = SubmitGateView;

    open spec fn view(&self) -> SubmitGateView {
        match self {
            SubmitGate::Invalid => SubmitGateView::Invalid,
            SubmitGate::Banned => SubmitGateView::Banned,
            SubmitGate::Duplicate(p) => SubmitGateView::Duplicate(*p),
            SubmitGate::FetchE621 { source, e621_id } => SubmitGateView::FetchE621 { source: source@, e621_id: *e621_id },
            SubmitGate::NeedsTags => SubmitGateView::NeedsTags,
            SubmitGate::Ready { source } => SubmitGateView::Ready { source: source@ },
        }
    }
}

/// Which way a submission goes: an unreadable URL or an unsupported site is
/// invalid; a banned submitter is turned away; a source whose normalized
/// URL is already a post is a duplicate; an e621 post page goes on to its
/// fetch; another site needs tags.
pub open spec fn submit_gate_spec(raw: Seq<char>, tags_given: bool, banned: bool, posts: Seq<PostView>) -> SubmitGateView {
    match url_parts(raw) {
        None => SubmitGateView::Invalid,
        Some(p) => if !(p.1 is Some && host_supported(p.1->0)) {
            SubmitGateView::Invalid
        } else if banned {
            SubmitGateView::Banned
        } else {
            match post_by_source(posts, p.0) {
                Some(q) => SubmitGateView::Duplicate(q.id),
                None => if is_e621_source(p.0) {
                    match url_path_segments(p.0) {
                        Some(segs) => match post_id_in(segs) {
                            Some(id) => SubmitGateView::FetchE621 { source: p.0, e621_id: id },
                            None => SubmitGateView::Invalid,
                        },
                        None => SubmitGateView::Invalid,
                    }
                } else if !tags_given {
                    SubmitGateView::NeedsTags
                } else {
                    SubmitGateView::Ready { source: p.0 }
                },
            }
        },
    }
}

fn host_ok(host: &String) -> (b: bool)
    ensures
        b == host_supported(host@),
{
    let h = chars_of(host.as_str());
    let hosts: [&str; 7] = ["e621.net", "furaffinity.net", "twitter.com", "x.com", "bsky.app", "deviantart.com", "t.me"];
    let mut k: usize = 0;
    while k < 7
        invariant
            k <= 7,
            h@ == host@,
            forall|i: int| 0 <= i < 7 ==> hosts@[i]@ == #[trigger] supported_hosts()[i],
            forall|i: int| 0 <= i < k ==> !ends_with(host@, #[trigger] supported_hosts()[i]),
        decreases 7 - k,
    {
        let suffix = chars_of(hosts[k]);
        if chars_end_with(&h, &suffix) {
            assert(ends_with(host@, supported_hosts()[k as int]));
            return true;
        }
        k = k + 1;
    }
    false
}

/// Where a submitted source stands.
pub fn submission_gate(
    raw: &str,
    tags_given: bool,
    banned: bool,
    posts: &InMemoryPostRepository,
) -> (r: SubmitGate)
    ensures
        r@ == submit_gate_spec(raw@, tags_given, banned, posts@),
{
    let parsed = match parse_url(raw) {
        Some(p) => p,
        None => return SubmitGate::Invalid,
    };
    let supported = match &parsed.host {
        Some(h) => host_ok(h),
        None => false,
    };
    if !supported {
        return SubmitGate::Invalid;
    }
    if banned {
        return SubmitGate::Banned;
    }
    let source = parsed.text;
    match posts.find_by_source(&source) {
        Some(q) => return SubmitGate::Duplicate(q.id),
        None => {},
    }
    if crate::curation::is_e621_url(source.as_str()) {
        match extract_post_id(source.as_str()) {
            Some(id) => SubmitGate::FetchE621 { source, e621_id: id },
            None => SubmitGate::Invalid,
        }
    } else if !tags_given {
        SubmitGate::NeedsTags
    } else {
        SubmitGate::Ready { source }
    }
}

/// A created submission.
#[derive(Debug)]
pub enum SubmitOutcome {
    /// Queued for review: these moderators and owners review it; the e621
    /// pools it sits in are offered for a whole-pool submission.
    Queued { post: Post, reviewers: Vec<User>, pool_ids: Vec<u64> },
    /// It carries a globally forbidden tag: stored as Banned, nobody reviews it.
    AutoBanned { post: Post, tag: String, reason: Option<String> },
}

/// The tags, artists and pools a submission carries: an e621 post's own
/// metadata with the submitter's tags merged in, or the submitter's tags
/// alone for other sites.
pub open spec fn submission_parts(tags: Seq<Seq<char>>, fetched: Option<E621PostMetadata>) -> (Seq<Seq<char>>, Seq<Seq<char>>, Seq<u64>) {
    match fetched {
        Some(m) => (merged_tags(views(m.tags@), tags), views(m.artists@), m.pools@),
        None => (tags, Seq::empty(), Seq::empty()),
    }
}

pub open spec fn forbidden_in(global: Set<Seq<char>>, ts: Seq<Seq<char>>) -> spec_fn(int) -> bool {
    |i: int| global.contains(ts[i])
}

/// The post a submission makes: under the next id, outside the feed,
/// Banned when one of its tags (the first, in order) is globally forbidden,
/// otherwise awaiting moderation.
pub fn create_submission(
    source: String,
    tags: &Vec<String>,
    fetched: Option<E621PostMetadata>,
    submitter: UserId,
    now: i64,
    users: &crate::user::InMemoryUserRepository,
    forbidden: &InMemoryForbiddenTagRepository,
    posts: &mut InMemoryPostRepository,
) -> (r: Result<SubmitOutcome, HandlerError>)
    ensures
        ({
            let (ts, artists, pools) = submission_parts(views(tags@), fetched);
            let hit = first_idx(0, ts.len() as int, forbidden_in(forbidden@.dom(), ts));
            let made = PostView {
                id: PostId(old(posts)@.len() as u64),
                source: source@,
                status: if hit < ts.len() { PostStatus::Banned } else { PostStatus::AwaitingModeration },
                tags: ts,
                artists,
                feed_position: None,
                last_posted: None,
                submitted_by: Some(submitter),
                submitted_at: now,
                moderated_by: None,
                moderated_at: None,
                phash: None,
            };
            if old(posts)@.len() + 1 >= u64::MAX {
                r == Err::<SubmitOutcome, HandlerError>(HandlerError::RepositoryError) && final(posts)@ == old(posts)@
            } else {
                &&& final(posts)@ == old(posts)@.push(made)
                &&& r is Ok
                &&& if hit < ts.len() {
                    r->Ok_0 is AutoBanned && r->Ok_0->AutoBanned_post@ == made
                        && r->Ok_0->AutoBanned_tag@ == ts[hit]
                        && reason_view(r->Ok_0->AutoBanned_reason) == forbidden@[ts[hit]]
                } else {
                    r->Ok_0 is Queued && r->Ok_0->Queued_post@ == made
                        && r->Ok_0->Queued_reviewers@ == reviewers_spec(users@)
                        && r->Ok_0->Queued_pool_ids@ == pools
                }
            }
        }),
{
    let (all_tags, artists, pools) = match fetched {
        Some(m) => (crate::moderation::merge_tags(&m.tags, tags), m.artists, m.pools),
        None => (clone_strings(tags), Vec::new(), Vec::new()),
    };
    assert(views(all_tags@) == submission_parts(views(tags@), fetched).0);
    assert(views(artists@) =~= submission_parts(views(tags@), fetched).1);
    assert(pools@ =~= submission_parts(views(tags@), fetched).2);
    let ghost ts = views(all_tags@);
    let ghost pred = forbidden_in(forbidden@.dom(), ts);
    proof {
        lemma_first_idx(0, ts.len() as int, pred);
    }
    let mut k: usize = 0;
    while k < all_tags.len() && !forbidden.contains(all_tags[k].as_str())
        invariant
            k <= all_tags.len(),
            ts == views(all_tags@),
            pred == forbidden_in(forbidden@.dom(), ts),
            forall|i: int| 0 <= i < k ==> !#[trigger] pred(i),
        decreases all_tags.len() - k,
    {
        k = k + 1;
    }
    proof {
        if k < all_tags.len() {
            assert(pred(k as int));
        }
        lemma_first_idx_is(0, k as int, ts.len() as int, pred);
    }
    let banned_tag = if k < all_tags.len() { Some(all_tags[k].clone()) } else { None };
    let status = if banned_tag.is_some() { PostStatus::Banned } else { PostStatus::AwaitingModeration };
    let post = match posts.create(source, all_tags, artists, Some(submitter), now, status) {
        Ok(p) => p,
        Err(_) => return Err(HandlerError::RepositoryError),
    };
    assert(k < all_tags.len() ==> banned_tag is Some && banned_tag->0@ == ts[k as int]);
    match banned_tag {
        Some(tag) => {
            let reason = forbidden.reason_for(tag.as_str());
            Ok(SubmitOutcome::AutoBanned { post, tag, reason })
        },
        None => Ok(SubmitOutcome::Queued { post, reviewers: reviewers_of(users), pool_ids: pools }),
    }
}

// ------------------------------------------------------------ replies ----

/// What the submitter is told when a non-e621 source still needs tags.
pub open spec fn tags_needed_text() -> Seq<char> {
    "Almost there! Reply with the tags that describe this post, separated by spaces. Credit the artist with artist:<name>.\nExample: `wolf male solo digital_art artist:coolwolf`"@
}

pub fn tags_needed_reply() -> (s: String)
    ensures
        s@ == tags_needed_text(),
{
    "Almost there! Reply with the tags that describe this post, separated by spaces. Credit the artist with artist:<name>.\nExample: `wolf male solo digital_art artist:coolwolf`".to_owned()
}

/// What the submitter is told once the post is made; `forward` is the
/// channel a forwarded post is credited to.
pub open spec fn submit_reply_spec(r: Result<SubmitOutcome, HandlerError>, forward: Option<Seq<char>>) -> Seq<char> {
    match r {
        Ok(SubmitOutcome::Queued { post, .. }) => match forward {
            Some(chan) => "Submission #"@ + decimal(post.id.0 as nat) + " is in the moderation queue — it will be posted as a copy credited to @"@
                + chan + " once approved!"@,
            None => "Submission #"@ + decimal(post.id.0 as nat) + " is in the moderation queue — you'll see it posted once approved!"@,
        },
        Ok(SubmitOutcome::AutoBanned { tag, reason, .. }) => match reason {
            Some(why) => "This post contains content that is not allowed here ("@ + tag@ + ": "@ + why@ + ")."@,
            None => "This post contains content that is not allowed here ("@ + tag@ + ")."@,
        },
        Err(e) => describe_spec(e),
    }
}

pub fn submit_reply(r: Result<SubmitOutcome, HandlerError>, forward: Option<&str>) -> (s: String)
    ensures
        s@ == submit_reply_spec(r, match forward { Some(c) => Some(c@), None => None }),
{
    let mut s = String::new();
    match r {
        Ok(SubmitOutcome::Queued { post, .. }) => {
            push_str(&mut s, "Submission #");
            push_decimal(&mut s, post.id.0);
            match forward {
                Some(chan) => {
                    push_str(&mut s, " is in the moderation queue — it will be posted as a copy credited to @");
                    push_str(&mut s, chan);
                    push_str(&mut s, " once approved!");
                },
                None => push_str(&mut s, " is in the moderation queue — you'll see it posted once approved!"),
            }
            s
        },
        Ok(SubmitOutcome::AutoBanned { tag, reason, .. }) => {
            push_str(&mut s, "This post contains content that is not allowed here (");
            push_str(&mut s, tag.as_str());
            match reason {
                Some(why) => {
                    push_str(&mut s, ": ");
                    push_str(&mut s, why.as_str());
                },
                None => {},
            }
            push_str(&mut s, ").");
            s
        },
        Err(e) => describe(e),
    }
}

/// Who submitted, for the moderators: the name (or "a user") with
/// the @handle, or the id when there is no handle.
pub open spec fn contact_spec(name: Option<Seq<char>>, handle: Option<Seq<char>>, id: i64) -> Seq<char> {
    let n = match name { Some(x) => x, None => "a user"@ };
    match handle {
        Some(h) => n + " (@"@ + h + ")"@,
        None => n + " (id "@ + signed_decimal(id as int) + ")"@,
    }
}

/// The note on a review message when the image reads as another post.
pub open spec fn similar_spec(s: Option<SimilarPost>) -> Seq<char> {
    match s {
        Some(x) => "\n⚠️ Looks like post #"@ + decimal(x.post_id.0 as nat) + " ("@
            + (if x.distance == 0 { "identical image"@ } else { "distance "@ + decimal(x.distance as nat) }) + ")"@,
        None => ""@,
    }
}

pub open spec fn first_tags(ts: Seq<Seq<char>>) -> Seq<Seq<char>> {
    if ts.len() <= 12 { ts } else { ts.take(12) }
}

/// The text of a review message: header, where the post comes from (the
/// forwarding channel or the source), its first twelve tags, who submitted
/// it, and the duplicate note.
pub open spec fn review_text_spec(
    post: PostView,
    forward: Option<Seq<char>>,
    contact: Seq<char>,
    similar: Option<SimilarPost>,
) -> Seq<char> {
    "New submission #"@ + decimal(post.id.0 as nat) + "\n"@
        + (match forward { Some(c) => "Forwarded from channel: @"@ + c, None => post.source })
        + "\nTags: "@ + join(first_tags(post.tags), " "@) + "\nSubmitted by "@ + contact + similar_spec(similar)
}

pub fn contact_label(name: &Option<String>, handle: &Option<String>, id: i64) -> (s: String)
    ensures
        s@ == contact_spec(
            match *name { Some(x) => Some(x@), None => None },
            match *handle { Some(x) => Some(x@), None => None },
            id,
        ),
{
    let mut s = String::new();
    match name {
        Some(n) => push_str(&mut s, n.as_str()),
        None => push_str(&mut s, "a user"),
    }
    match handle {
        Some(h) => {
            push_str(&mut s, " (@");
            push_str(&mut s, h.as_str());
            push_str(&mut s, ")");
        },
        None => {
            push_str(&mut s, " (id ");
            push_signed_decimal(&mut s, id);
            push_str(&mut s, ")");
        },
    }
    s
}

#[verifier::spinoff_prover]
pub fn review_text(post: &Post, forward: Option<&str>, contact: &str, similar: Option<SimilarPost>) -> (s: String)
    ensures
        s@ == review_text_spec(post@, match forward { Some(c) => Some(c@), None => None }, contact@, similar),
{
    let mut s = String::new();
    push_str(&mut s, "New submission #");
    push_decimal(&mut s, post.id.0);
    push_str(&mut s, "\n");
    match forward {
        Some(c) => {
            push_str(&mut s, "Forwarded from channel: @");
            push_str(&mut s, c);
        },
        None => push_str(&mut s, post.source.as_str()),
    }
    push_str(&mut s, "\nTags: ");
    let n = if post.tags.len() <= 12 { post.tags.len() } else { 12 };
    let mut shown: Vec<String> = Vec::new();
    let mut k: usize = 0;
    while k < n
        invariant
            k <= n <= post.tags.len(),
            n == (if post.tags.len() <= 12 { post.tags.len() } else { 12 }),
            views(shown@) == views(post.tags@).take(k as int),
        decreases n - k,
    {
        let ghost before = views(shown@);
        let t = post.tags[k].clone();
        assert(t@ == views(post.tags@)[k as int]);
        shown.push(t);
        assert(views(shown@) =~= before.push(t@));
        assert(views(post.tags@).take(k + 1) =~= views(post.tags@).take(k as int).push(views(post.tags@)[k as int]));
        k = k + 1;
    }
    assert(views(shown@) =~= first_tags(views(post.tags@)));
    let joined = join_with(&shown, " ");
    push_str(&mut s, joined.as_str());
    push_str(&mut s, "\nSubmitted by ");
    push_str(&mut s, contact);
    let ghost before = s@;
    match similar {
        Some(x) => {
            push_str(&mut s, "\n⚠️ Looks like post #");
            push_decimal(&mut s, x.post_id.0);
            push_str(&mut s, " (");
            if x.distance == 0 {
                push_str(&mut s, "identical image");
            } else {
                push_str(&mut s, "distance ");
                push_decimal(&mut s, x.distance as u64);
            }
            push_str(&mut s, ")");
        },
        None => {
            proof {
                reveal_strlit("");
            }
            assert(s@ =~= before + ""@);
        },
    }
    s
}

} // verus!
