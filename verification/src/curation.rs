//! Curation jobs around the feed: the near-duplicate check after a
//! submission, staging a whole e621 pool, and the dead-media sweep.
//!
//! Hashing images, fetching from e621 and resolving media are network work
//! done outside the library; their results come in as arguments.

use vstd::prelude::*;
use crate::e621::{E621Pool, E621PostMetadata};
use crate::handler::{require_role, role_check, HandlerError};
use crate::phash::{hamming, hamming_spec, NEAR_DUPLICATE_DISTANCE};
use crate::policy::InMemoryForbiddenTagRepository;
use crate::post::{
    clone_post, feed_end_of, feed_window, hashes_of, post_by_id, post_by_source, post_views,
    InMemoryPostRepository, Post, PostId, PostStatus, PostView,
};
use crate::poster::{poster_views, InMemoryPosterRepository, PosterView};
use crate::publisher::{MediaKind, ResolvedMedia};
use crate::text::{decimal, push_decimal, push_str, starts_with, chars_of, views};
use crate::user::{Role, TelegramId, UserId};

verus! {

// ---------------------------------------------------------- duplicates ----

/// An existing post whose media reads as the same picture.
#[derive(Debug, Clone, Copy, PartialEq, Eq, Structural)]
pub struct SimilarPost {
    pub post_id: PostId,
    /// Hamming distance between the dHashes (0 = identical structure).
    pub distance: u32,
}

/// The hashes of other posts, in order.
pub open spec fn others(hs: Seq<(PostId, u64)>, me: PostId) -> Seq<(PostId, u64)>
    decreases hs.len(),
{
    if hs.len() == 0 {
        seq![]
    } else {
        let prev = others(hs.drop_last(), me);
        if hs.last().0 != me { prev.push(hs.last()) } else { prev }
    }
}

/// The closest of `hs` to `h`: the first at the smallest distance.
pub open spec fn closest(hs: Seq<(PostId, u64)>, h: u64) -> Option<(PostId, nat)>
    decreases hs.len(),
{
    if hs.len() == 0 {
        None
    } else {
        let d = hamming_spec(h, hs.last().1);
        match closest(hs.drop_last(), h) {
            Some(p) => if d < p.1 { Some((hs.last().0, d)) } else { Some(p) },
            None => Some((hs.last().0, d)),
        }
    }
}

/// The verdict of the duplicate check against these stored hashes.
pub open spec fn similar_spec(hs: Seq<(PostId, u64)>, me: PostId, h: u64) -> Option<SimilarPost> {
    match closest(others(hs, me), h) {
        Some(c) => if c.1 <= NEAR_DUPLICATE_DISTANCE {
            Some(SimilarPost { post_id: c.0, distance: c.1 as u32 })
        } else {
            None
        },
        None => None,
    }
}

/// The image URL to hash: only photos are hashed (videos and links don't
/// dHash).
pub fn hashable(media: &ResolvedMedia) -> (r: Option<String>)
    ensures
        r is Some <==> media.kind_spec() == MediaKind::Photo,
        match media {
            ResolvedMedia::Photo(u) => r == Some(*u),
            _ => true,
        },
{
    match media {
        ResolvedMedia::Photo(url) => Some(url.clone()),
        _ => None,
    }
}

/// The duplicate check of a freshly submitted post: media that is not a
/// photo, or whose hashing failed (`hashed` is `None`), is never flagged
/// and stores nothing; otherwise the hash is stored for the post and the
/// closest other post within `NEAR_DUPLICATE_DISTANCE` comes back.
pub fn similarity_check(
    post_id: PostId,
    media: &ResolvedMedia,
    hashed: Option<u64>,
    posts: &mut InMemoryPostRepository,
) -> (r: Option<SimilarPost>)
    ensures
        media.kind_spec() != MediaKind::Photo || hashed is None ==> r is None && final(posts)@ == old(posts)@,
        media.kind_spec() == MediaKind::Photo && hashed is Some ==> {
            &&& post_id.0 < old(posts)@.len() ==> final(posts)@ == old(posts)@.update(
                post_id.0 as int,
                PostView { phash: Some(hashed->0), ..old(posts)@[post_id.0 as int] },
            )
            &&& post_id.0 >= old(posts)@.len() ==> final(posts)@ == old(posts)@
            &&& r == similar_spec(hashes_of(final(posts)@), post_id, hashed->0)
        },
{
    if hashable(media).is_none() {
        return None;
    }
    match hashed {
        Some(h) => check_similar(post_id, h, posts),
        None => None,
    }
}

/// Store `hash` for `post_id` and return the closest other post within
/// `NEAR_DUPLICATE_DISTANCE`, if any. Storing may fail silently (the
/// check only flags, it never blocks).
pub fn check_similar(post_id: PostId, hash: u64, posts: &mut InMemoryPostRepository) -> (r: Option<SimilarPost>)
    ensures
        post_id.0 < old(posts)@.len() ==> final(posts)@ == old(posts)@.update(
            post_id.0 as int,
            PostView { phash: Some(hash), ..old(posts)@[post_id.0 as int] },
        ),
        post_id.0 >= old(posts)@.len() ==> final(posts)@ == old(posts)@,
        r == similar_spec(hashes_of(final(posts)@), post_id, hash),
{
    let _ = posts.set_phash(post_id, Some(hash));
    let all = posts.list_phashes();
    let ghost hs = all@;
    let mut best: Option<SimilarPost> = None;
    let ghost mut best_spec: Option<(PostId, nat)> = None;
    let mut k: usize = 0;
    while k < all.len()
        invariant
            k <= all.len(),
            hs == all@,
            best_spec == closest(others(hs.take(k as int), post_id), hash),
            match best_spec {
                Some(c) => best == Some(SimilarPost { post_id: c.0, distance: c.1 as u32 }) && c.1 <= 64,
                None => best is None,
            },
        decreases all.len() - k,
    {
        assert(hs.take(k + 1).drop_last() =~= hs.take(k as int));
        let (id, other) = all[k];
        if id != post_id {
            let d = hamming(hash, other);
            proof {
                let o = others(hs.take(k + 1), post_id);
                assert(o.drop_last() =~= others(hs.take(k as int), post_id));
                assert(o.last() == (id, other));
            }
            match best {
                Some(b) => {
                    if d < b.distance {
                        best = Some(SimilarPost { post_id: id, distance: d });
                    }
                },
                None => {
                    best = Some(SimilarPost { post_id: id, distance: d });
                },
            }
            proof {
                best_spec = closest(others(hs.take(k + 1), post_id), hash);
            }
        } else {
            proof {
                assert(others(hs.take(k + 1), post_id) =~= others(hs.take(k as int), post_id));
            }
        }
        k = k + 1;
    }
    assert(hs.take(all.len() as int) =~= hs);
    match best {
        Some(b) => if b.distance <= NEAR_DUPLICATE_DISTANCE { Some(b) } else { None },
        None => None,
    }
}

// ------------------------------------------------------------- pools ----

pub open spec fn e621_prefix() -> Seq<char> {
    seq!['h', 't', 't', 'p', 's', ':', '/', '/', 'e', '6', '2', '1', '.', 'n', 'e', 't', '/']
}

/// The source is an e621 page.
pub open spec fn is_e621_source(s: Seq<char>) -> bool {
    s.len() >= 17 && s.take(17) == e621_prefix()
}

/// Whether a source is an e621 page.
pub fn is_e621_url(source: &str) -> (b: bool)
    ensures
        b == is_e621_source(source@),
{
    let v = crate::text::chars_of(source);
    let b = crate::text::starts_with(&v, &['h', 't', 't', 'p', 's', ':', '/', '/', 'e', '6', '2', '1', '.', 'n', 'e', 't', '/']);
    proof {
        if is_e621_source(source@) {
            assert(v@.take(17) =~= e621_prefix());
        }
        if b {
            assert(v@.take(17) =~= e621_prefix());
        }
    }
    b
}

pub open spec fn not_e621_text(id: PostId) -> Seq<char> {
    "post "@ + decimal(id.0 as nat) + " is not an e621 source"@
}

/// The reviewed post whose pools a moderator wants to inspect: it must
/// exist and be an e621 source.
pub fn inspect_target(
    actor: TelegramId,
    post_id: PostId,
    users: &crate::user::InMemoryUserRepository,
    posts: &InMemoryPostRepository,
) -> (r: Result<Post, HandlerError>)
    ensures
        match role_check(users@, actor, Role::Moderator) {
            Err(e) => r == Err::<Post, HandlerError>(e),
            Ok(_) => match post_by_id(posts@, post_id) {
                None => r == Err::<Post, HandlerError>(HandlerError::PostNotFound(post_id)),
                Some(p) => if is_e621_source(p.source) {
                    r is Ok && r->Ok_0@ == p
                } else {
                    r is Err && r->Err_0 is InvalidState && r->Err_0->InvalidState_0@ == not_e621_text(post_id)
                },
            },
        },
{
    require_role(users, actor, Role::Moderator)?;
    let post = match posts.find_by_id(post_id) {
        Some(p) => p,
        None => return Err(HandlerError::PostNotFound(post_id)),
    };
    let v = chars_of(post.source.as_str());
    if !starts_with(&v, &['h', 't', 't', 'p', 's', ':', '/', '/', 'e', '6', '2', '1', '.', 'n', 'e', 't', '/']) {
        let mut msg = String::new();
        push_str(&mut msg, "post ");
        push_decimal(&mut msg, post_id.0);
        push_str(&mut msg, " is not an e621 source");
        return Err(HandlerError::InvalidState(msg));
    }
    assert(v@.take(17) =~= e621_prefix());
    Ok(post)
}

/// A pool staged for out-of-band publication.
#[derive(Debug)]
pub struct StagedPool {
    pub pool: E621Pool,
    /// The reviewed post that triggered the pool submission.
    pub trigger: Post,
    /// Every page to publish, in pool order: `Accepted`, never positioned.
    pub posts: Vec<Post>,
    /// Pages already known locally, left as they are.
    pub already_curated: usize,
    /// Pages refused for a globally forbidden tag.
    pub forbidden: usize,
    /// Pages e621 no longer serves.
    pub missing_upstream: usize,
}

/// The staging state after some pages.
pub struct StageAcc {
    pub posts: Seq<PostView>,
    pub staged: Seq<PostView>,
    pub curated: nat,
    pub refused: nat,
}

/// What staging does with one page: the trigger itself, still awaiting
/// moderation, is approved into the batch; other known pages are left
/// alone; unknown pages carrying a globally forbidden tag are refused; the
/// rest become positionless `Accepted` posts moderated by `by` at `now`.
/// `None` when the store is full.
pub open spec fn stage_step(
    acc: StageAcc,
    page: (Seq<char>, Seq<Seq<char>>, Seq<Seq<char>>),
    trigger: PostId,
    by: UserId,
    now: i64,
    global: Set<Seq<char>>,
) -> Option<StageAcc> {
    let (source, tags, artists) = page;
    match post_by_source(acc.posts, source) {
        Some(known) => if known.id == trigger && known.status == PostStatus::AwaitingModeration {
            Some(StageAcc {
                posts: acc.posts.update(known.id.0 as int, PostView {
                    status: PostStatus::Accepted,
                    moderated_by: Some(by),
                    moderated_at: Some(now),
                    ..known
                }),
                staged: acc.staged.push(PostView { status: PostStatus::Accepted, ..known }),
                ..acc
            })
        } else {
            Some(StageAcc { curated: acc.curated + 1, ..acc })
        },
        None => if exists|k: int| 0 <= k < tags.len() && global.contains(#[trigger] tags[k]) {
            Some(StageAcc { refused: acc.refused + 1, ..acc })
        } else if acc.posts.len() + 1 >= u64::MAX {
            None
        } else {
            let created = PostView {
                id: PostId(acc.posts.len() as u64),
                source,
                status: PostStatus::Accepted,
                tags,
                artists,
                feed_position: None,
                last_posted: None,
                submitted_by: None,
                submitted_at: now,
                moderated_by: None,
                moderated_at: None,
                phash: None,
            };
            Some(StageAcc {
                posts: acc.posts.push(PostView { moderated_by: Some(by), moderated_at: Some(now), ..created }),
                staged: acc.staged.push(created),
                ..acc
            })
        },
    }
}

pub open spec fn page_view(m: E621PostMetadata) -> (Seq<char>, Seq<Seq<char>>, Seq<Seq<char>>) {
    (m.source@, views(m.tags@), views(m.artists@))
}

/// Staging every page in order; `None` when the store filled up.
pub open spec fn stage_all(
    start: StageAcc,
    pages: Seq<E621PostMetadata>,
    trigger: PostId,
    by: UserId,
    now: i64,
    global: Set<Seq<char>>,
) -> Option<StageAcc>
    decreases pages.len(),
{
    if pages.len() == 0 {
        Some(start)
    } else {
        match stage_all(start, pages.drop_last(), trigger, by, now, global) {
            Some(acc) => stage_step(acc, page_view(pages.last()), trigger, by, now, global),
            None => None,
        }
    }
}

/// Every fetched page is accounted for exactly once: staged, already
/// curated, or refused for a forbidden tag.
pub proof fn lemma_stage_counts(
    start: StageAcc,
    pages: Seq<E621PostMetadata>,
    trigger: PostId,
    by: UserId,
    now: i64,
    global: Set<Seq<char>>,
)
    ensures
        stage_all(start, pages, trigger, by, now, global) matches Some(acc) ==> acc.staged.len() + acc.curated + acc.refused
            == start.staged.len() + start.curated + start.refused + pages.len(),
    decreases pages.len(),
{
    if pages.len() > 0 {
        lemma_stage_counts(start, pages.drop_last(), trigger, by, now, global);
    }
}

/// Once the store has filled up, staging more pages cannot recover.
pub proof fn lemma_stage_stays_failed(
    start: StageAcc,
    pages: Seq<E621PostMetadata>,
    j: int,
    trigger: PostId,
    by: UserId,
    now: i64,
    global: Set<Seq<char>>,
)
    requires
        0 <= j <= pages.len(),
        stage_all(start, pages.take(j), trigger, by, now, global) is None,
    ensures
        stage_all(start, pages, trigger, by, now, global) is None,
    decreases pages.len() - j,
{
    if j < pages.len() {
        assert(pages.take(j + 1).drop_last() =~= pages.take(j));
        lemma_stage_stays_failed(start, pages, j + 1, trigger, by, now, global);
    } else {
        assert(pages.take(j) =~= pages);
    }
}

/// Every post sits at the index of its id.
pub open spec fn ids_are_indices(ps: Seq<PostView>) -> bool {
    forall|i: int| 0 <= i < ps.len() ==> (#[trigger] ps[i]).id.0 == i
}

/// A page a new staging run leaves alone: it is known and is not the
/// trigger still awaiting moderation, or it is unknown and globally
/// forbidden.
pub open spec fn settled(
    ps: Seq<PostView>,
    page: (Seq<char>, Seq<Seq<char>>, Seq<Seq<char>>),
    trigger: PostId,
    global: Set<Seq<char>>,
) -> bool {
    match post_by_source(ps, page.0) {
        Some(known) => !(known.id == trigger && known.status == PostStatus::AwaitingModeration),
        None => exists|k: int| 0 <= k < page.1.len() && global.contains(#[trigger] page.1[k]),
    }
}

/// Where a source lookup lands: the first post with that source, or the
/// post count.
pub open spec fn source_index(ps: Seq<PostView>, s: Seq<char>) -> int {
    crate::text::first_idx(0, ps.len() as int, crate::post::source_is(ps, s))
}

pub proof fn lemma_source_index(ps: Seq<PostView>, s: Seq<char>)
    ensures
        0 <= source_index(ps, s) <= ps.len(),
        post_by_source(ps, s) == (if source_index(ps, s) < ps.len() { Some(ps[source_index(ps, s)]) } else { None }),
{
    crate::text::lemma_first_idx(0, ps.len() as int, crate::post::source_is(ps, s));
}

/// Looking a source up after one more post was stored: an earlier match
/// wins, else the new post when its source matches.
pub proof fn lemma_source_after_push(ps: Seq<PostView>, x: PostView, s: Seq<char>)
    ensures
        post_by_source(ps.push(x), s) == (match post_by_source(ps, s) {
            Some(p) => Some(p),
            None => if x.source == s { Some(x) } else { None },
        }),
{
    let n = ps.len() as int;
    let q = ps.push(x);
    let p1 = crate::post::source_is(ps, s);
    let p2 = crate::post::source_is(q, s);
    crate::text::lemma_first_idx(0, n, p1);
    let i = crate::text::first_idx(0, n, p1);
    assert forall|k: int| 0 <= k < i implies !#[trigger] p2(k) by {
        assert(q[k] == ps[k]);
        assert(!p1(k));
    }
    if i < n {
        assert(q[i] == ps[i]);
        crate::text::lemma_first_idx_is(0, i, n + 1, p2);
    } else if x.source == s {
        assert(q[n] == x);
        crate::text::lemma_first_idx_is(0, n, n + 1, p2);
    } else {
        assert(q[n] == x);
        assert(!p2(n));
        crate::text::lemma_first_idx_is(0, n + 1, n + 1, p2);
    }
}

/// Looking a source up after one post changed but kept its source: the
/// same index is found.
pub proof fn lemma_source_after_update(ps: Seq<PostView>, j: int, y: PostView, s: Seq<char>)
    requires
        0 <= j < ps.len(),
        y.source == ps[j].source,
    ensures
        source_index(ps.update(j, y), s) == source_index(ps, s),
{
    let n = ps.len() as int;
    let q = ps.update(j, y);
    let p1 = crate::post::source_is(ps, s);
    let p2 = crate::post::source_is(q, s);
    crate::text::lemma_first_idx(0, n, p1);
    let i = crate::text::first_idx(0, n, p1);
    assert forall|k: int| 0 <= k < i implies !#[trigger] p2(k) by {
        assert(!p1(k));
        if k == j {
            assert(q[k].source == ps[k].source);
        } else {
            assert(q[k] == ps[k]);
        }
    }
    if i < n {
        if i == j {
            assert(q[i].source == ps[i].source);
        } else {
            assert(q[i] == ps[i]);
        }
        crate::text::lemma_first_idx_is(0, i, n, p2);
    } else {
        crate::text::lemma_first_idx_is(0, n, n, p2);
    }
}

/// One staging step keeps an already settled page settled.
proof fn lemma_step_keeps_settled(
    acc: StageAcc,
    pg: (Seq<char>, Seq<Seq<char>>, Seq<Seq<char>>),
    other: (Seq<char>, Seq<Seq<char>>, Seq<Seq<char>>),
    trigger: PostId,
    by: UserId,
    now: i64,
    global: Set<Seq<char>>,
)
    requires
        ids_are_indices(acc.posts),
        trigger.0 < acc.posts.len(),
        stage_step(acc, pg, trigger, by, now, global) is Some,
        settled(acc.posts, other, trigger, global),
    ensures
        settled(stage_step(acc, pg, trigger, by, now, global)->0.posts, other, trigger, global),
{
    let ps = acc.posts;
    let next = stage_step(acc, pg, trigger, by, now, global)->0;
    match post_by_source(ps, pg.0) {
        Some(known) => {
            if known.id == trigger && known.status == PostStatus::AwaitingModeration {
                lemma_source_index(ps, pg.0);
                let i = source_index(ps, pg.0);
                assert(ps[i] == known);
                assert(known.id.0 == i);
                let y = PostView { status: PostStatus::Accepted, moderated_by: Some(by), moderated_at: Some(now), ..known };
                assert(next.posts == ps.update(i, y));
                lemma_source_after_update(ps, i, y, other.0);
                lemma_source_index(ps, other.0);
                lemma_source_index(ps.update(i, y), other.0);
                let io = source_index(ps, other.0);
                if io < ps.len() && io != i {
                    assert(ps.update(i, y)[io] == ps[io]);
                }
            }
        },
        None => {
            if !(exists|k: int| 0 <= k < pg.1.len() && global.contains(#[trigger] pg.1[k])) {
                let (source, tags, artists) = pg;
                let created = PostView {
                    id: PostId(ps.len() as u64),
                    source,
                    status: PostStatus::Accepted,
                    tags,
                    artists,
                    feed_position: None,
                    last_posted: None,
                    submitted_by: None,
                    submitted_at: now,
                    moderated_by: Some(by),
                    moderated_at: Some(now),
                    phash: None,
                };
                assert(next.posts == ps.push(created));
                lemma_source_after_push(ps, created, other.0);
            }
        },
    }
}

/// One staging step settles its own page and keeps ids at their indices.
proof fn lemma_step_settles(
    acc: StageAcc,
    pg: (Seq<char>, Seq<Seq<char>>, Seq<Seq<char>>),
    trigger: PostId,
    by: UserId,
    now: i64,
    global: Set<Seq<char>>,
)
    requires
        ids_are_indices(acc.posts),
        trigger.0 < acc.posts.len(),
        stage_step(acc, pg, trigger, by, now, global) is Some,
    ensures
        ({
            let next = stage_step(acc, pg, trigger, by, now, global)->0;
            &&& settled(next.posts, pg, trigger, global)
            &&& ids_are_indices(next.posts)
            &&& next.posts.len() >= acc.posts.len()
        }),
{
    let ps = acc.posts;
    let next = stage_step(acc, pg, trigger, by, now, global)->0;
    match post_by_source(ps, pg.0) {
        Some(known) => {
            lemma_source_index(ps, pg.0);
            let i = source_index(ps, pg.0);
            assert(ps[i] == known);
            if known.id == trigger && known.status == PostStatus::AwaitingModeration {
                let y = PostView { status: PostStatus::Accepted, moderated_by: Some(by), moderated_at: Some(now), ..known };
                assert(known.id.0 == i);
                assert(next.posts == ps.update(i, y));
                lemma_source_after_update(ps, i, y, pg.0);
                lemma_source_index(ps.update(i, y), pg.0);
                assert(post_by_source(next.posts, pg.0) == Some(y));
                assert forall|k: int| 0 <= k < next.posts.len() implies (#[trigger] next.posts[k]).id.0 == k by {
                    if k != i {
                        assert(next.posts[k] == ps[k]);
                    }
                }
            }
        },
        None => {
            if !(exists|k: int| 0 <= k < pg.1.len() && global.contains(#[trigger] pg.1[k])) {
                let (source, tags, artists) = pg;
                let created = PostView {
                    id: PostId(ps.len() as u64),
                    source,
                    status: PostStatus::Accepted,
                    tags,
                    artists,
                    feed_position: None,
                    last_posted: None,
                    submitted_by: None,
                    submitted_at: now,
                    moderated_by: Some(by),
                    moderated_at: Some(now),
                    phash: None,
                };
                assert(next.posts == ps.push(created));
                lemma_source_after_push(ps, created, pg.0);
                assert forall|k: int| 0 <= k < next.posts.len() implies (#[trigger] next.posts[k]).id.0 == k by {
                    if k < ps.len() {
                        assert(next.posts[k] == ps[k]);
                    }
                }
            }
        },
    }
}

/// After a staging run, every staged page is settled.
proof fn lemma_stage_settles(
    start: StageAcc,
    pages: Seq<E621PostMetadata>,
    trigger: PostId,
    by: UserId,
    now: i64,
    global: Set<Seq<char>>,
)
    requires
        ids_are_indices(start.posts),
        trigger.0 < start.posts.len(),
        stage_all(start, pages, trigger, by, now, global) is Some,
    ensures
        ({
            let acc = stage_all(start, pages, trigger, by, now, global)->0;
            &&& ids_are_indices(acc.posts)
            &&& acc.posts.len() >= start.posts.len()
            &&& forall|j: int| 0 <= j < pages.len() ==> settled(acc.posts, #[trigger] page_view(pages[j]), trigger, global)
        }),
    decreases pages.len(),
{
    if pages.len() > 0 {
        let rest = pages.drop_last();
        lemma_stage_settles(start, rest, trigger, by, now, global);
        let prev = stage_all(start, rest, trigger, by, now, global)->0;
        let pg = page_view(pages.last());
        lemma_step_settles(prev, pg, trigger, by, now, global);
        assert forall|j: int| 0 <= j < pages.len() implies settled(
            stage_all(start, pages, trigger, by, now, global)->0.posts, #[trigger] page_view(pages[j]), trigger, global) by {
            if j < pages.len() - 1 {
                assert(rest[j] == pages[j]);
                assert(settled(prev.posts, page_view(rest[j]), trigger, global));
                lemma_step_keeps_settled(prev, pg, page_view(pages[j]), trigger, by, now, global);
            }
        }
    }
}

/// Staging pages that are all settled changes no post and stages nothing.
proof fn lemma_settled_stage_is_quiet(
    start: StageAcc,
    pages: Seq<E621PostMetadata>,
    trigger: PostId,
    by: UserId,
    now: i64,
    global: Set<Seq<char>>,
)
    requires
        forall|j: int| 0 <= j < pages.len() ==> settled(start.posts, #[trigger] page_view(pages[j]), trigger, global),
    ensures
        stage_all(start, pages, trigger, by, now, global) is Some,
        stage_all(start, pages, trigger, by, now, global)->0.posts == start.posts,
        stage_all(start, pages, trigger, by, now, global)->0.staged == start.staged,
    decreases pages.len(),
{
    if pages.len() > 0 {
        let rest = pages.drop_last();
        assert forall|j: int| 0 <= j < rest.len() implies settled(start.posts, #[trigger] page_view(rest[j]), trigger, global) by {
            assert(rest[j] == pages[j]);
        }
        lemma_settled_stage_is_quiet(start, rest, trigger, by, now, global);
        assert(settled(start.posts, page_view(pages[pages.len() - 1]), trigger, global));
    }
}

/// Staging is idempotent: once a pool has been staged, staging it again
/// (by anyone, at any time) finds every page known or refused, creates
/// nothing and changes no post: every page counts as already curated or
/// refused.
pub proof fn lemma_restaging_creates_nothing(
    posts: Seq<PostView>,
    pages: Seq<E621PostMetadata>,
    trigger: PostId,
    by: UserId,
    now: i64,
    again_by: UserId,
    again_at: i64,
    global: Set<Seq<char>>,
)
    requires
        ids_are_indices(posts),
        trigger.0 < posts.len(),
        stage_all(StageAcc { posts, staged: seq![], curated: 0, refused: 0 }, pages, trigger, by, now, global) is Some,
    ensures
        ({
            let first = stage_all(StageAcc { posts, staged: seq![], curated: 0, refused: 0 }, pages, trigger, by, now, global)->0;
            let second = stage_all(StageAcc { posts: first.posts, staged: seq![], curated: 0, refused: 0 }, pages, trigger, again_by, again_at, global);
            &&& second is Some
            &&& second->0.posts == first.posts
            &&& second->0.staged.len() == 0
            &&& second->0.curated + second->0.refused == pages.len()
        }),
{
    let start = StageAcc { posts, staged: seq![], curated: 0, refused: 0 };
    lemma_stage_settles(start, pages, trigger, by, now, global);
    let first = stage_all(start, pages, trigger, by, now, global)->0;
    let again = StageAcc { posts: first.posts, staged: seq![], curated: 0, refused: 0 };
    lemma_settled_stage_is_quiet(again, pages, trigger, again_by, again_at, global);
    lemma_stage_counts(again, pages, trigger, again_by, again_at, global);
}

/// What `stage` reports accounts for every member of the pool: each is
/// staged, already curated, refused for a forbidden tag or missing
/// upstream, whenever e621 served no more pages than the pool has members.
pub proof fn lemma_stage_accounts(
    posts: Seq<PostView>,
    pages: Seq<E621PostMetadata>,
    members: nat,
    trigger: PostId,
    by: UserId,
    now: i64,
    global: Set<Seq<char>>,
)
    requires
        pages.len() <= members,
    ensures
        stage_all(StageAcc { posts, staged: seq![], curated: 0, refused: 0 }, pages, trigger, by, now, global) matches Some(acc)
            ==> acc.staged.len() + acc.curated + acc.refused + (members - pages.len()) == members,
{
    lemma_stage_counts(StageAcc { posts, staged: seq![], curated: 0, refused: 0 }, pages, trigger, by, now, global);
}

/// A page carries a globally forbidden tag.
pub open spec fn forbidden_page(pg: (Seq<char>, Seq<Seq<char>>, Seq<Seq<char>>), global: Set<Seq<char>>) -> bool {
    exists|k: int| 0 <= k < pg.1.len() && global.contains(#[trigger] pg.1[k])
}

/// How many of the pages `ps` does not know and a forbidden tag refuses.
pub open spec fn unknown_forbidden(ps: Seq<PostView>, pages: Seq<E621PostMetadata>, global: Set<Seq<char>>) -> nat
    decreases pages.len(),
{
    if pages.len() == 0 {
        0
    } else {
        unknown_forbidden(ps, pages.drop_last(), global) + (if post_by_source(ps, pages.last().source@) is None
            && forbidden_page(page_view(pages.last()), global) { 1nat } else { 0nat })
    }
}

/// No two pages share a source.
pub open spec fn distinct_sources(pages: Seq<E621PostMetadata>) -> bool {
    forall|a: int, b: int| 0 <= a < b < pages.len() ==> (#[trigger] pages[a]).source@ != (#[trigger] pages[b]).source@
}

/// The count depends on the store only through which sources it knows.
proof fn lemma_unknown_forbidden_same(p1: Seq<PostView>, p2: Seq<PostView>, pages: Seq<E621PostMetadata>, global: Set<Seq<char>>)
    requires
        forall|j: int| 0 <= j < pages.len()
            ==> (post_by_source(p1, (#[trigger] pages[j]).source@) is Some) == (post_by_source(p2, pages[j].source@) is Some),
    ensures
        unknown_forbidden(p1, pages, global) == unknown_forbidden(p2, pages, global),
    decreases pages.len(),
{
    if pages.len() > 0 {
        let rest = pages.drop_last();
        assert forall|j: int| 0 <= j < rest.len()
            implies (post_by_source(p1, (#[trigger] rest[j]).source@) is Some) == (post_by_source(p2, rest[j].source@) is Some) by {
            assert(rest[j] == pages[j]);
        }
        lemma_unknown_forbidden_same(p1, p2, rest, global);
        assert(pages.last() == pages[pages.len() - 1]);
    }
}

/// One staging step: other sources stay known or unknown as they were, and
/// the page is refused exactly when the store still does not know it
/// afterwards, which happens exactly when it was unknown and forbidden.
proof fn lemma_step_sources(
    acc: StageAcc,
    pg: (Seq<char>, Seq<Seq<char>>, Seq<Seq<char>>),
    trigger: PostId,
    by: UserId,
    now: i64,
    global: Set<Seq<char>>,
)
    requires
        ids_are_indices(acc.posts),
        stage_step(acc, pg, trigger, by, now, global) is Some,
    ensures
        ({
            let next = stage_step(acc, pg, trigger, by, now, global)->0;
            &&& forall|s: Seq<char>| s != pg.0 ==> ((#[trigger] post_by_source(next.posts, s) is Some) == (post_by_source(acc.posts, s) is Some))
            &&& next.refused == acc.refused + (if post_by_source(next.posts, pg.0) is None { 1nat } else { 0nat })
            &&& (post_by_source(next.posts, pg.0) is None <==> (post_by_source(acc.posts, pg.0) is None && forbidden_page(pg, global)))
        }),
{
    let ps = acc.posts;
    let next = stage_step(acc, pg, trigger, by, now, global)->0;
    match post_by_source(ps, pg.0) {
        Some(known) => {
            lemma_source_index(ps, pg.0);
            let i = source_index(ps, pg.0);
            assert(ps[i] == known);
            if known.id == trigger && known.status == PostStatus::AwaitingModeration {
                let y = PostView { status: PostStatus::Accepted, moderated_by: Some(by), moderated_at: Some(now), ..known };
                assert(known.id.0 == i);
                assert(next.posts == ps.update(i, y));
                assert forall|s: Seq<char>| true implies ((#[trigger] post_by_source(next.posts, s) is Some) == (post_by_source(ps, s) is Some)) by {
                    lemma_source_after_update(ps, i, y, s);
                    lemma_source_index(ps, s);
                    lemma_source_index(ps.update(i, y), s);
                }
            }
        },
        None => {
            if !forbidden_page(pg, global) {
                let (source, tags, artists) = pg;
                let created = PostView {
                    id: PostId(ps.len() as u64),
                    source,
                    status: PostStatus::Accepted,
                    tags,
                    artists,
                    feed_position: None,
                    last_posted: None,
                    submitted_by: None,
                    submitted_at: now,
                    moderated_by: Some(by),
                    moderated_at: Some(now),
                    phash: None,
                };
                assert(next.posts == ps.push(created));
                assert forall|s: Seq<char>| true implies ((#[trigger] post_by_source(next.posts, s) is Some)
                    == (post_by_source(ps, s) is Some || s == pg.0)) by {
                    lemma_source_after_push(ps, created, s);
                }
            }
        },
    }
}

/// In a first staging run over pages with distinct sources, the refusals
/// are the pages the resulting store does not know and a forbidden tag
/// refuses.
proof fn lemma_first_run_refusals(
    start: StageAcc,
    pages: Seq<E621PostMetadata>,
    trigger: PostId,
    by: UserId,
    now: i64,
    global: Set<Seq<char>>,
)
    requires
        ids_are_indices(start.posts),
        trigger.0 < start.posts.len(),
        distinct_sources(pages),
        stage_all(start, pages, trigger, by, now, global) is Some,
    ensures
        stage_all(start, pages, trigger, by, now, global)->0.refused
            == start.refused + unknown_forbidden(stage_all(start, pages, trigger, by, now, global)->0.posts, pages, global),
    decreases pages.len(),
{
    if pages.len() > 0 {
        let rest = pages.drop_last();
        assert forall|a: int, b: int| 0 <= a < b < rest.len() implies (#[trigger] rest[a]).source@ != (#[trigger] rest[b]).source@ by {
            assert(rest[a] == pages[a] && rest[b] == pages[b]);
        }
        lemma_first_run_refusals(start, rest, trigger, by, now, global);
        lemma_stage_settles(start, rest, trigger, by, now, global);
        let prev = stage_all(start, rest, trigger, by, now, global)->0;
        let pg = page_view(pages.last());
        lemma_step_sources(prev, pg, trigger, by, now, global);
        let acc = stage_all(start, pages, trigger, by, now, global)->0;
        assert(acc == stage_step(prev, pg, trigger, by, now, global)->0);
        assert forall|j: int| 0 <= j < rest.len()
            implies (post_by_source(acc.posts, (#[trigger] rest[j]).source@) is Some) == (post_by_source(prev.posts, rest[j].source@) is Some) by {
            assert(rest[j] == pages[j]);
            assert(pages[j].source@ != pages[pages.len() - 1].source@);
            assert(pages.last() == pages[pages.len() - 1]);
        }
        lemma_unknown_forbidden_same(acc.posts, prev.posts, rest, global);
    }
}

/// In a run that changes nothing (every page settled), the refusals are the
/// pages the store does not know and a forbidden tag refuses.
proof fn lemma_quiet_run_refusals(
    start: StageAcc,
    pages: Seq<E621PostMetadata>,
    trigger: PostId,
    by: UserId,
    now: i64,
    global: Set<Seq<char>>,
)
    requires
        forall|j: int| 0 <= j < pages.len() ==> settled(start.posts, #[trigger] page_view(pages[j]), trigger, global),
    ensures
        stage_all(start, pages, trigger, by, now, global) is Some,
        stage_all(start, pages, trigger, by, now, global)->0.refused == start.refused + unknown_forbidden(start.posts, pages, global),
    decreases pages.len(),
{
    lemma_settled_stage_is_quiet(start, pages, trigger, by, now, global);
    if pages.len() > 0 {
        let rest = pages.drop_last();
        assert forall|j: int| 0 <= j < rest.len() implies settled(start.posts, #[trigger] page_view(rest[j]), trigger, global) by {
            assert(rest[j] == pages[j]);
        }
        lemma_quiet_run_refusals(start, rest, trigger, by, now, global);
        lemma_settled_stage_is_quiet(start, rest, trigger, by, now, global);
        assert(pages.last() == pages[pages.len() - 1]);
        assert(settled(start.posts, page_view(pages[pages.len() - 1]), trigger, global));
    }
}

/// Staging the same pool again, when its pages have distinct sources,
/// refuses the same pages as the first run and counts every page the first
/// run staged or found curated as already curated. `stage` states of every
/// store it runs on that ids are indices, and of every run that reaches
/// the pages that the trigger exists.
pub proof fn lemma_restaging_counts(
    posts: Seq<PostView>,
    pages: Seq<E621PostMetadata>,
    trigger: PostId,
    by: UserId,
    now: i64,
    again_by: UserId,
    again_at: i64,
    global: Set<Seq<char>>,
)
    requires
        ids_are_indices(posts),
        trigger.0 < posts.len(),
        distinct_sources(pages),
        stage_all(StageAcc { posts, staged: seq![], curated: 0, refused: 0 }, pages, trigger, by, now, global) is Some,
    ensures
        ({
            let first = stage_all(StageAcc { posts, staged: seq![], curated: 0, refused: 0 }, pages, trigger, by, now, global)->0;
            let second = stage_all(StageAcc { posts: first.posts, staged: seq![], curated: 0, refused: 0 }, pages, trigger, again_by, again_at, global);
            &&& second is Some
            &&& second->0.staged.len() == 0
            &&& second->0.refused == first.refused
            &&& second->0.curated == first.staged.len() + first.curated
        }),
{
    let start = StageAcc { posts, staged: seq![], curated: 0, refused: 0 };
    lemma_restaging_creates_nothing(posts, pages, trigger, by, now, again_by, again_at, global);
    lemma_stage_settles(start, pages, trigger, by, now, global);
    lemma_stage_counts(start, pages, trigger, by, now, global);
    lemma_first_run_refusals(start, pages, trigger, by, now, global);
    let first = stage_all(start, pages, trigger, by, now, global)->0;
    let again = StageAcc { posts: first.posts, staged: seq![], curated: 0, refused: 0 };
    lemma_quiet_run_refusals(again, pages, trigger, again_by, again_at, global);
    lemma_stage_counts(again, pages, trigger, again_by, again_at, global);
}

/// Stage a pool for out-of-band publication at `now`: `pool` and its
/// available `pages` (pool order) as e621 served them. Every page is
/// adopted — the trigger folded in when it is a member still awaiting
/// moderation, known pages skipped, globally forbidden ones refused, the
/// rest created as positionless `Accepted` posts (moderators only).
pub fn stage(
    actor: TelegramId,
    post_id: PostId,
    pool: E621Pool,
    pages: Vec<E621PostMetadata>,
    now: i64,
    users: &crate::user::InMemoryUserRepository,
    posts: &mut InMemoryPostRepository,
    forbidden: &InMemoryForbiddenTagRepository,
) -> (r: Result<StagedPool, HandlerError>)
    ensures
        match role_check(users@, actor, Role::Moderator) {
            Err(e) => r == Err::<StagedPool, HandlerError>(e) && final(posts)@ == old(posts)@,
            Ok(m) => ids_are_indices(old(posts)@) && match post_by_id(old(posts)@, post_id) {
                None => r == Err::<StagedPool, HandlerError>(HandlerError::PostNotFound(post_id))
                    && final(posts)@ == old(posts)@,
                Some(t) => match stage_all(
                    StageAcc { posts: old(posts)@, staged: seq![], curated: 0, refused: 0 },
                    pages@,
                    post_id,
                    m.id,
                    now,
                    forbidden@.dom(),
                ) {
                    None => r == Err::<StagedPool, HandlerError>(HandlerError::RepositoryError),
                    Some(acc) => r is Ok && {
                        let s = r->Ok_0;
                        &&& final(posts)@ == acc.posts
                        &&& post_views(s.posts@) == acc.staged
                        &&& s.trigger@ == t
                        &&& s.already_curated == acc.curated
                        &&& s.forbidden == acc.refused
                        &&& s.missing_upstream == (if pool.post_ids@.len() > pages@.len() {
                            pool.post_ids@.len() - pages@.len()
                        } else {
                            0
                        })
                        &&& s.pool.id == pool.id
                        &&& s.posts@.len() + s.already_curated + s.forbidden + s.missing_upstream == (
                            if pool.post_ids@.len() > pages@.len() { pool.post_ids@.len() } else { pages@.len() })
                    },
                },
            },
        },
{
    let moderator = require_role(users, actor, Role::Moderator)?;
    let trigger = match posts.find_by_id(post_id) {
        Some(p) => p,
        None => return Err(HandlerError::PostNotFound(post_id)),
    };
    let missing_upstream = pool.post_ids.len().saturating_sub(pages.len());
    let global = forbidden.list_all();
    let ghost g = forbidden@.dom();
    let ghost start = StageAcc { posts: posts@, staged: seq![], curated: 0, refused: 0 };
    assert(start == StageAcc { posts: old(posts)@, staged: Seq::<PostView>::empty(), curated: 0, refused: 0 });
    assert(role_check(users@, actor, Role::Moderator) == Ok::<crate::user::User, HandlerError>(moderator));
    let mut staged: Vec<Post> = Vec::new();
    let mut already_curated: usize = 0;
    let mut refused: usize = 0;
    let mut k: usize = 0;
    assert(post_views(staged@) =~= Seq::<PostView>::empty());
    assert(pages@.take(0) =~= Seq::<E621PostMetadata>::empty());
    while k < pages.len()
        invariant
            k <= pages.len(),
            views(global@).to_set() == g,
            g == forbidden@.dom(),
            start == (StageAcc { posts: old(posts)@, staged: Seq::<PostView>::empty(), curated: 0, refused: 0 }),
            role_check(users@, actor, Role::Moderator) == Ok::<crate::user::User, HandlerError>(moderator),
            post_by_id(old(posts)@, post_id) is Some,
            ids_are_indices(old(posts)@),
            already_curated <= k,
            refused <= k,
            stage_all(start, pages@.take(k as int), post_id, moderator.id, now, g) == Some(StageAcc {
                posts: posts@,
                staged: post_views(staged@),
                curated: already_curated as nat,
                refused: refused as nat,
            }),
        decreases pages.len() - k,
    {
        assert(pages@.take(k + 1).drop_last() =~= pages@.take(k as int));
        assert(pages@.take(k + 1).last() == pages@[k as int]);
        let page = &pages[k];
        let ghost acc = StageAcc { posts: posts@, staged: post_views(staged@), curated: already_curated as nat, refused: refused as nat };
        let ghost pv = page_view(pages@[k as int]);
        assert(stage_all(start, pages@.take(k + 1), post_id, moderator.id, now, g)
            == stage_step(acc, pv, post_id, moderator.id, now, g));
        match posts.find_by_source(&page.source) {
            Some(known) => {
                if known.id == post_id && known.status == PostStatus::AwaitingModeration {
                    if posts.set_status_to(known.id, PostStatus::Accepted).is_err() {
                        return Err(HandlerError::RepositoryError);
                    }
                    if posts.record_moderation(known.id, moderator.id, now).is_err() {
                        return Err(HandlerError::RepositoryError);
                    }
                    let ghost before = staged@;
                    staged.push(Post { status: PostStatus::Accepted, ..known });
                    assert(post_views(staged@) =~= post_views(before).push(staged@.last()@));
                    assert(posts@ =~= acc.posts.update(known.id.0 as int, PostView {
                        status: PostStatus::Accepted,
                        moderated_by: Some(moderator.id),
                        moderated_at: Some(now),
                        ..known@
                    }));
                } else {
                    already_curated = already_curated + 1;
                }
            },
            None => {
                let mut hit = false;
                let mut j: usize = 0;
                while j < page.tags.len()
                    invariant
                        j <= page.tags.len(),
                        views(global@).to_set() == g,
                        hit == exists|q: int| 0 <= q < j && g.contains(#[trigger] views(page.tags@)[q]),
                    decreases page.tags.len() - j,
                {
                    if crate::text::contains_string(global.as_slice(), &page.tags[j]) {
                        assert(g.contains(views(page.tags@)[j as int]));
                        hit = true;
                    } else {
                        assert(!views(global@).contains(views(page.tags@)[j as int]));
                        assert(!g.contains(views(page.tags@)[j as int]));
                    }
                    j = j + 1;
                }
                if hit {
                    refused = refused + 1;
                } else {
                    let created = match posts.create(
                        page.source.clone(),
                        crate::text::clone_strings(&page.tags),
                        crate::text::clone_strings(&page.artists),
                        None,
                        now,
                        PostStatus::Accepted,
                    ) {
                        Ok(p) => p,
                        Err(_) => {
                            proof {
                                assert(post_by_source(acc.posts, pv.0) is None);
                                assert(!(exists|q: int| 0 <= q < pv.1.len() && g.contains(#[trigger] pv.1[q])));
                                assert(acc.posts.len() + 1 >= u64::MAX);
                                assert(stage_step(acc, pv, post_id, moderator.id, now, g) is None);
                                assert(stage_all(start, pages@.take(k + 1), post_id, moderator.id, now, g) is None);
                                lemma_stage_stays_failed(start, pages@, k + 1, post_id, moderator.id, now, g);
                                assert(stage_all(start, pages@, post_id, moderator.id, now, g) is None);
                            }
                            return Err(HandlerError::RepositoryError);
                        },
                    };
                    assert(posts@ == acc.posts.push(created@));
                    assert(created.id.0 == acc.posts.len());
                    if posts.record_moderation(created.id, moderator.id, now).is_err() {
                        return Err(HandlerError::RepositoryError);
                    }
                    assert(posts@ == acc.posts.push(created@).update(acc.posts.len() as int, PostView {
                        moderated_by: Some(moderator.id),
                        moderated_at: Some(now),
                        ..created@
                    }));
                    let ghost before = staged@;
                    staged.push(created);
                    assert(post_views(staged@) =~= post_views(before).push(staged@.last()@));
                    proof {
                        assert(posts@ =~= acc.posts.push(PostView {
                            moderated_by: Some(moderator.id),
                            moderated_at: Some(now),
                            ..staged@.last()@
                        }));
                    }
                }
            },
        }
        k = k + 1;
    }
    assert(pages@.take(pages.len() as int) =~= pages@);
    proof {
        lemma_stage_counts(start, pages@, post_id, moderator.id, now, g);
    }
    Ok(StagedPool { pool, trigger, posts: staged, already_curated, forbidden: refused, missing_upstream })
}

// --------------------------------------------------------------- sweep ----

/// Hash backfills per sweep.
pub const BACKFILL_CAP: usize = 100;

/// A feed entry whose upstream content is confirmed gone.
#[derive(Debug, Clone)]
pub struct DeadEntry {
    pub post_id: PostId,
    pub source: String,
}

#[derive(Debug)]
pub struct SweepOutcome {
    /// Feed entries examined.
    pub scanned: usize,
    /// Entries whose upstream is confirmed gone.
    pub dead: Vec<DeadEntry>,
    /// Perceptual hashes computed for entries that were missing one.
    pub hashes_backfilled: usize,
}

/// The smallest cursor of the posters (0 with none).
pub open spec fn min_cursor(ps: Seq<PosterView>) -> u64
    decreases ps.len(),
{
    if ps.len() == 0 {
        0
    } else if ps.len() == 1 {
        ps[0].cursor
    } else {
        let rest = min_cursor(ps.drop_last());
        if ps.last().cursor < rest { ps.last().cursor } else { rest }
    }
}

/// The entries no poster has passed yet: `(min cursor, feed end]`.
pub fn sweep_window(posts: &InMemoryPostRepository, posters: &InMemoryPosterRepository) -> (w: Vec<Post>)
    ensures
        post_views(w@) == feed_window(posts@, min_cursor(posters@) as int, feed_end_of(posts@) as int),
{
    let all = posters.list_all();
    let ghost pv = poster_views(all@);
    let mut low: u64 = 0;
    let mut k: usize = 0;
    while k < all.len()
        invariant
            k <= all.len(),
            pv == poster_views(all@),
            pv == posters@,
            low == min_cursor(pv.take(k as int)),
        decreases all.len() - k,
    {
        assert(pv.take(k + 1).drop_last() =~= pv.take(k as int));
        assert(pv.take(k + 1).last() == all@[k as int]@);
        let c = all[k].cursor;
        if k == 0 || c < low {
            low = c;
        }
        proof {
            if k == 0 {
                assert(pv.take(1) =~= seq![pv[0]]);
            }
        }
        k = k + 1;
    }
    assert(pv.take(all.len() as int) =~= pv);
    let end = posts.feed_end();
    posts.feed_after(low, end)
}

/// What resolving a swept entry's media came to.
#[derive(Debug, Clone)]
pub enum SweepResolution {
    /// The upstream is gone for good.
    Gone,
    /// A transient failure; the entry is retried next sweep.
    Failed,
    Resolved(ResolvedMedia),
}

/// The sweep's tally, built entry by entry.
pub struct Sweep {
    pub outcome: SweepOutcome,
}

impl Sweep {
    /// A sweep over `scanned` entries.
    pub fn new(scanned: usize) -> (s: Sweep)
        ensures
            s.outcome.scanned == scanned,
            s.outcome.dead@.len() == 0,
            s.outcome.hashes_backfilled == 0,
    {
        Sweep { outcome: SweepOutcome { scanned, dead: Vec::new(), hashes_backfilled: 0 } }
    }

    /// Record how `entry` resolved. A gone upstream is reported dead; a
    /// photo of an entry without a hash, while the backfill cap is not
    /// reached, is handed back for hashing.
    pub fn on_resolved(&mut self, entry: &Post, resolution: SweepResolution) -> (hash_url: Option<String>)
        ensures
            final(self).outcome.scanned == old(self).outcome.scanned,
            final(self).outcome.hashes_backfilled == old(self).outcome.hashes_backfilled,
            match resolution {
                SweepResolution::Gone => final(self).outcome.dead@.len() == old(self).outcome.dead@.len() + 1
                    && final(self).outcome.dead@.drop_last() == old(self).outcome.dead@
                    && final(self).outcome.dead@.last().post_id == entry.id
                    && final(self).outcome.dead@.last().source@ == entry.source@
                    && hash_url is None,
                SweepResolution::Failed => final(self).outcome.dead@ == old(self).outcome.dead@ && hash_url is None,
                SweepResolution::Resolved(m) => final(self).outcome.dead@ == old(self).outcome.dead@
                    && (hash_url is Some <==> (entry.phash is None
                        && old(self).outcome.hashes_backfilled < BACKFILL_CAP
                        && m.kind_spec() == MediaKind::Photo))
                    && (hash_url is Some ==> m == ResolvedMedia::Photo(hash_url->0)),
            },
    {
        match resolution {
            SweepResolution::Gone => {
                self.outcome.dead.push(DeadEntry { post_id: entry.id, source: entry.source.clone() });
                None
            },
            SweepResolution::Failed => None,
            SweepResolution::Resolved(media) => {
                if entry.phash.is_none() && self.outcome.hashes_backfilled < BACKFILL_CAP {
                    match media {
                        ResolvedMedia::Photo(url) => Some(url),
                        _ => None,
                    }
                } else {
                    None
                }
            },
        }
    }

    /// A backfill hash came back for `post_id`: store it, and count it when
    /// the store took it.
    pub fn on_hashed(&mut self, post_id: PostId, hash: u64, posts: &mut InMemoryPostRepository)
        requires
            old(self).outcome.hashes_backfilled < BACKFILL_CAP,
        ensures
            final(self).outcome.scanned == old(self).outcome.scanned,
            final(self).outcome.dead@ == old(self).outcome.dead@,
            post_id.0 < old(posts)@.len() ==> final(posts)@ == old(posts)@.update(
                post_id.0 as int,
                PostView { phash: Some(hash), ..old(posts)@[post_id.0 as int] },
            ) && final(self).outcome.hashes_backfilled == old(self).outcome.hashes_backfilled + 1,
            post_id.0 >= old(posts)@.len() ==> final(posts)@ == old(posts)@
                && final(self).outcome.hashes_backfilled == old(self).outcome.hashes_backfilled,
    {
        if posts.set_phash(post_id, Some(hash)).is_ok() {
            self.outcome.hashes_backfilled = self.outcome.hashes_backfilled + 1;
        }
    }
}

} // verus!
