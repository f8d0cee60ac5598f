//! Posts and the one ordered feed.
//!
//! Approving a submission assigns it the next feed position; consumers walk
//! `(cursor, end]` in feed order. The in-memory store keeps the feed as the
//! list of post ids in position order, so position `p` is entry `p - 1`.

use vstd::prelude::*;
use crate::text::{clone_strings, first_idx, lemma_first_idx_is, views};
use crate::user::UserId;

verus! {

/// Program-managed post id.
#[derive(Debug, Clone, Copy, PartialEq, Eq, Hash, Structural)]
pub struct PostId(pub u64);

#[derive(Debug, Clone, Copy, PartialEq, Eq, Structural)]
pub enum PostStatus {
    AwaitingModeration,
    Accepted,
    Rejected,
    Banned,
    Deleted,
    MediaGone,
}

/// A curated or submitted piece of content. Instants are milliseconds since
/// the Unix epoch.
#[derive(Debug, Clone)]
pub struct Post {
    pub id: PostId,
    /// The normalized source URL.
    pub source: String,
    pub status: PostStatus,
    pub tags: Vec<String>,
    pub artists: Vec<String>,
    pub feed_position: Option<u64>,
    pub last_posted: Option<i64>,
    pub submitted_by: Option<UserId>,
    pub submitted_at: i64,
    pub moderated_by: Option<UserId>,
    pub moderated_at: Option<i64>,
    pub phash: Option<u64>,
}

/// A post as a value.
#[verifier::ext_equal]
pub struct PostView {
    pub id: PostId,
    pub source: Seq<char>,
    pub status: PostStatus,
    pub tags: Seq<Seq<char>>,
    pub artists: Seq<Seq<char>>,
    pub feed_position: Option<u64>,
    pub last_posted: Option<i64>,
    pub submitted_by: Option<UserId>,
    pub submitted_at: i64,
    pub moderated_by: Option<UserId>,
    pub moderated_at: Option<i64>,
    pub phash: Option<u64>,
}

impl View for Post {
    type V = PostView;

    open spec fn view(&self) -> PostView {
        PostView {
            id: self.id,
            source: self.source@,
            status: self.status,
            tags: views(self.tags@),
            artists: views(self.artists@),
            feed_position: self.feed_position,
            last_posted: self.last_posted,
            submitted_by: self.submitted_by,
            submitted_at: self.submitted_at,
            moderated_by: self.moderated_by,
            moderated_at: self.moderated_at,
            phash: self.phash,
        }
    }
}

/// The views of a list of posts.
pub open spec fn post_views(ps: Seq<Post>) -> Seq<PostView> {
    ps.map_values(|p: Post| p@)
}

#[derive(Debug)]
pub enum PostRepositoryError {
    NotFound(PostId),
    /// The store cannot hand out another id.
    Full,
}

/// A field-for-field copy of a post.
pub fn clone_post(p: &Post) -> (r: Post)
    ensures
        r@ == p@,
{
    Post {
        id: p.id,
        source: p.source.clone(),
        status: p.status,
        tags: clone_strings(&p.tags),
        artists: clone_strings(&p.artists),
        feed_position: p.feed_position,
        last_posted: p.last_posted,
        submitted_by: p.submitted_by,
        submitted_at: p.submitted_at,
        moderated_by: p.moderated_by,
        moderated_at: p.moderated_at,
        phash: p.phash,
    }
}

/// Feed entries a consumer scans: Accepted, and Banned (re-validated at
/// consume time).
pub open spec fn listed(p: PostView) -> bool {
    p.status == PostStatus::Accepted || p.status == PostStatus::Banned
}

/// The posts' feed bookkeeping is consistent: post `i` has id `i`, the
/// positioned posts hold exactly the positions `1..=k`, one each, and
/// `feed[p - 1]` is the post at position `p`.
pub open spec fn feed_consistent(ps: Seq<PostView>, feed: Seq<u64>) -> bool {
    &&& feed.len() < u64::MAX
    &&& forall|i: int| 0 <= i < ps.len() ==> (#[trigger] ps[i]).id.0 == i
    &&& forall|k: int| 0 <= k < feed.len() ==> (#[trigger] feed[k]) < ps.len()
        && ps[feed[k] as int].feed_position == Some((k + 1) as u64)
    &&& forall|i: int| 0 <= i < ps.len() && (#[trigger] ps[i]).feed_position is Some ==> {
        let p = ps[i].feed_position->0;
        1 <= p <= feed.len() && feed[p - 1] == i
    }
}

/// The post at feed position `pos`, if any.
pub open spec fn at_position(ps: Seq<PostView>, pos: u64) -> Option<PostView> {
    if exists|i: int| 0 <= i < ps.len() && ps[i].feed_position == Some(pos) {
        Some(ps[choose|i: int| 0 <= i < ps.len() && ps[i].feed_position == Some(pos)])
    } else {
        None
    }
}

/// The largest feed position (0 for an empty feed).
pub open spec fn feed_end_of(ps: Seq<PostView>) -> nat
    decreases ps.len(),
{
    if ps.len() == 0 {
        0
    } else {
        let rest = feed_end_of(ps.drop_last());
        match ps.last().feed_position {
            Some(p) => if p > rest { p as nat } else { rest },
            None => rest,
        }
    }
}

/// The listed entries at positions `lo+1 ..= hi`, in feed order.
pub open spec fn feed_window(ps: Seq<PostView>, lo: int, hi: int) -> Seq<PostView>
    decreases hi - lo,
{
    if hi <= lo || hi < 0 {
        seq![]
    } else {
        let prev = feed_window(ps, lo, hi - 1);
        match at_position(ps, hi as u64) {
            Some(p) => if listed(p) { prev.push(p) } else { prev },
            None => prev,
        }
    }
}

/// The post with id `id`, if any.
pub open spec fn post_by_id(ps: Seq<PostView>, id: PostId) -> Option<PostView> {
    if id.0 < ps.len() { Some(ps[id.0 as int]) } else { None }
}

pub open spec fn source_is(ps: Seq<PostView>, source: Seq<char>) -> spec_fn(int) -> bool {
    |i: int| ps[i].source == source
}

/// The first post (by id) with the given source, if any.
pub open spec fn post_by_source(ps: Seq<PostView>, source: Seq<char>) -> Option<PostView> {
    let i = first_idx(0, ps.len() as int, source_is(ps, source));
    if i < ps.len() { Some(ps[i]) } else { None }
}

pub open spec fn opt_view(p: Option<Post>) -> Option<PostView> {
    match p {
        Some(q) => Some(q@),
        None => None,
    }
}

/// The in-memory post repository.
pub struct InMemoryPostRepository {
    posts: Vec<Post>,
    feed: Vec<u64>,
}

impl View for InMemoryPostRepository {
    type V = Seq<PostView>;

    closed spec fn view(&self) -> Seq<PostView> {
        post_views(self.posts@)
    }
}

pub open spec fn store_ok(posts: Seq<Post>, feed: Seq<u64>) -> bool {
    &&& posts.len() < u64::MAX
    &&& feed_consistent(post_views(posts), feed)
}

impl InMemoryPostRepository {
    #[verifier::type_invariant]
    closed spec fn wf(self) -> bool {
        store_ok(self.posts@, self.feed@)
    }

    pub fn new() -> (r: Self)
        ensures
            r@ == Seq::<PostView>::empty(),
    {
        let r = InMemoryPostRepository { posts: Vec::new(), feed: Vec::new() };
        assert(r@ =~= Seq::<PostView>::empty());
        r
    }

    /// Move the contents out, leaving an empty store behind.
    fn take_parts(&mut self) -> (r: (Vec<Post>, Vec<u64>))
        ensures
            store_ok(r.0@, r.1@),
            r.1@ == old(self).feed@,
            post_views(r.0@) == old(self)@,
    {
        let mut tmp = InMemoryPostRepository::new();
        std::mem::swap(self, &mut tmp);
        proof {
            use_type_invariant(&tmp);
        }
        let InMemoryPostRepository { posts, feed } = tmp;
        (posts, feed)
    }

    /// Store a new post under the next id, outside the feed.
    pub fn create(
        &mut self,
        source: String,
        tags: Vec<String>,
        artists: Vec<String>,
        submitted_by: Option<UserId>,
        submitted_at: i64,
        status: PostStatus,
    ) -> (r: Result<Post, PostRepositoryError>)
        ensures
            match r {
                Ok(p) => p@ == (PostView {
                    id: PostId(old(self)@.len() as u64),
                    source: source@,
                    status,
                    tags: views(tags@),
                    artists: views(artists@),
                    feed_position: None,
                    last_posted: None,
                    submitted_by,
                    submitted_at,
                    moderated_by: None,
                    moderated_at: None,
                    phash: None,
                }) && final(self)@ == old(self)@.push(p@) && old(self)@.len() + 1 < u64::MAX,
                Err(e) => e is Full && old(self)@.len() + 1 >= u64::MAX && final(self)@ == old(self)@,
            },
    {
        let (mut posts, feed) = self.take_parts();
        if posts.len() as u64 >= u64::MAX - 1 {
            *self = InMemoryPostRepository { posts, feed };
            return Err(PostRepositoryError::Full);
        }
        let post = Post {
            id: PostId(posts.len() as u64),
            source,
            status,
            tags,
            artists,
            feed_position: None,
            last_posted: None,
            submitted_by,
            submitted_at,
            moderated_by: None,
            moderated_at: None,
            phash: None,
        };
        let copy = clone_post(&post);
        let ghost before = posts@;
        posts.push(copy);
        proof {
            assert(post_views(posts@) =~= post_views(before).push(post@));
        }
        *self = InMemoryPostRepository { posts, feed };
        Ok(post)
    }

    pub fn find_by_id(&self, id: PostId) -> (r: Option<Post>)
        ensures
            opt_view(r) == post_by_id(self@, id),
            forall|i: int| 0 <= i < self@.len() ==> (#[trigger] self@[i]).id.0 == i,
    {
        proof {
            use_type_invariant(self);
        }
        if id.0 < self.posts.len() as u64 {
            Some(clone_post(&self.posts[id.0 as usize]))
        } else {
            None
        }
    }

    pub fn find_by_source(&self, source: &String) -> (r: Option<Post>)
        ensures
            opt_view(r) == post_by_source(self@, source@),
            r is Some ==> r->0.id.0 < self@.len() && self@[r->0.id.0 as int] == r->0@,
    {
        proof {
            use_type_invariant(self);
        }
        let ghost p = source_is(self@, source@);
        let mut k: usize = 0;
        while k < self.posts.len()
            invariant
                k <= self.posts.len(),
                p == source_is(self@, source@),
                forall|i: int| 0 <= i < self@.len() ==> (#[trigger] self@[i]).id.0 == i,
                forall|i: int| 0 <= i < k ==> !#[trigger] p(i),
            decreases self.posts.len() - k,
        {
            if self.posts[k].source == *source {
                assert(self@[k as int].id.0 == k);
                proof {
                    lemma_first_idx_is(0, k as int, self@.len() as int, p);
                }
                return Some(clone_post(&self.posts[k]));
            }
            assert(!p(k as int));
            k = k + 1;
        }
        proof {
            lemma_first_idx_is(0, k as int, self@.len() as int, p);
        }
        None
    }

    /// Replace post `i` by `q`, which keeps its id and feed position.
    fn replace_at(&mut self, i: usize, q: Post)
        requires
            i < old(self)@.len(),
            q@.id == old(self)@[i as int].id,
            q@.feed_position == old(self)@[i as int].feed_position,
        ensures
            final(self)@ == old(self)@.update(i as int, q@),
    {
        let (mut posts, feed) = self.take_parts();
        let ghost before = posts@;
        let ghost qv = q@;
        posts.set(i, q);
        proof {
            assert(post_views(posts@) =~= post_views(before).update(i as int, qv));
            let pv = post_views(posts@);
            let bv = post_views(before);
            assert forall|k: int| 0 <= k < feed@.len() implies (#[trigger] feed@[k]) < pv.len()
                && pv[feed@[k] as int].feed_position == Some((k + 1) as u64) by {
                assert(bv[feed@[k] as int].feed_position == Some((k + 1) as u64));
            }
            assert forall|j: int| 0 <= j < pv.len() && (#[trigger] pv[j]).feed_position is Some implies {
                let p = pv[j].feed_position->0;
                1 <= p <= feed@.len() && feed@[p - 1] == j
            } by {
                assert(pv[j].feed_position == bv[j].feed_position);
            }
            assert forall|j: int| 0 <= j < pv.len() implies (#[trigger] pv[j]).id.0 == j by {
                assert(pv[j].id == bv[j].id);
            }
        }
        *self = InMemoryPostRepository { posts, feed };
    }

    /// Set a post's moderation status.
    pub fn set_status_to(&mut self, id: PostId, status: PostStatus) -> (r: Result<(), PostRepositoryError>)
        ensures
            match r {
                Ok(_) => id.0 < old(self)@.len()
                    && final(self)@ == old(self)@.update(id.0 as int, PostView { status, ..old(self)@[id.0 as int] }),
                Err(e) => e == PostRepositoryError::NotFound(id) && id.0 >= old(self)@.len() && final(self)@ == old(self)@,
            },
    {
        if id.0 >= self.posts.len() as u64 {
            return Err(PostRepositoryError::NotFound(id));
        }
        let i = id.0 as usize;
        let p = clone_post(&self.posts[i]);
        self.replace_at(i, Post { status, ..p });
        Ok(())
    }

    /// Soft delete: the post's status becomes `Deleted`.
    pub fn remove(&mut self, id: PostId) -> (r: Result<(), PostRepositoryError>)
        ensures
            match r {
                Ok(_) => id.0 < old(self)@.len()
                    && final(self)@ == old(self)@.update(id.0 as int, PostView { status: PostStatus::Deleted, ..old(self)@[id.0 as int] }),
                Err(e) => e == PostRepositoryError::NotFound(id) && id.0 >= old(self)@.len() && final(self)@ == old(self)@,
            },
    {
        self.set_status_to(id, PostStatus::Deleted)
    }

    /// Record who moderated a post and when.
    pub fn record_moderation(&mut self, id: PostId, by: UserId, at: i64) -> (r: Result<(), PostRepositoryError>)
        ensures
            match r {
                Ok(_) => id.0 < old(self)@.len()
                    && final(self)@ == old(self)@.update(id.0 as int, PostView { moderated_by: Some(by), moderated_at: Some(at), ..old(self)@[id.0 as int] }),
                Err(e) => e == PostRepositoryError::NotFound(id) && id.0 >= old(self)@.len() && final(self)@ == old(self)@,
            },
    {
        if id.0 >= self.posts.len() as u64 {
            return Err(PostRepositoryError::NotFound(id));
        }
        let i = id.0 as usize;
        let p = clone_post(&self.posts[i]);
        self.replace_at(i, Post { moderated_by: Some(by), moderated_at: Some(at), ..p });
        Ok(())
    }

    /// Replace a post's tags.
    pub fn set_tags(&mut self, id: PostId, tags: Vec<String>) -> (r: Result<Post, PostRepositoryError>)
        ensures
            match r {
                Ok(p) => id.0 < old(self)@.len() && p@ == (PostView { tags: views(tags@), ..old(self)@[id.0 as int] })
                    && final(self)@ == old(self)@.update(id.0 as int, p@),
                Err(e) => e == PostRepositoryError::NotFound(id) && id.0 >= old(self)@.len() && final(self)@ == old(self)@,
            },
    {
        if id.0 >= self.posts.len() as u64 {
            return Err(PostRepositoryError::NotFound(id));
        }
        let i = id.0 as usize;
        let p = clone_post(&self.posts[i]);
        let q = Post { tags, ..p };
        let copy = clone_post(&q);
        self.replace_at(i, copy);
        Ok(q)
    }

    /// Stamp when a post was last published.
    pub fn mark_posted(&mut self, id: PostId, at: i64) -> (r: Result<(), PostRepositoryError>)
        ensures
            match r {
                Ok(_) => id.0 < old(self)@.len()
                    && final(self)@ == old(self)@.update(id.0 as int, PostView { last_posted: Some(at), ..old(self)@[id.0 as int] }),
                Err(e) => e == PostRepositoryError::NotFound(id) && id.0 >= old(self)@.len() && final(self)@ == old(self)@,
            },
    {
        if id.0 >= self.posts.len() as u64 {
            return Err(PostRepositoryError::NotFound(id));
        }
        let i = id.0 as usize;
        let p = clone_post(&self.posts[i]);
        self.replace_at(i, Post { last_posted: Some(at), ..p });
        Ok(())
    }

    /// How many posts the store holds.
    pub fn count(&self) -> (n: u64)
        ensures
            n == self@.len(),
    {
        proof {
            use_type_invariant(self);
        }
        self.posts.len() as u64
    }

    /// The feed bookkeeping behind the view: every positioned post holds a
    /// distinct position in `1..=feed_end`, and every such position is held.
    pub fn feed_end(&self) -> (e: u64)
        ensures
            e == feed_end_of(self@),
            forall|pos: u64| 1 <= pos <= e <==> (#[trigger] at_position(self@, pos)) is Some,
    {
        proof {
            use_type_invariant(self);
            lemma_feed_end(post_views(self.posts@), self.feed@);
        }
        self.feed.len() as u64
    }

    /// Mark a post Accepted and give it the next feed position, unless it
    /// already holds one (re-accepting keeps the original slot).
    pub fn accept_into_feed(&mut self, id: PostId) -> (r: Result<Post, PostRepositoryError>)
        ensures
            match r {
                Ok(p) => id.0 < old(self)@.len() && feed_end_of(old(self)@) + 1 < u64::MAX
                    && p@ == (PostView {
                        status: PostStatus::Accepted,
                        feed_position: match old(self)@[id.0 as int].feed_position {
                            Some(pos) => Some(pos),
                            None => Some((feed_end_of(old(self)@) + 1) as u64),
                        },
                        ..old(self)@[id.0 as int]
                    })
                    && final(self)@ == old(self)@.update(id.0 as int, p@),
                Err(e) => final(self)@ == old(self)@ && (
                    (e == PostRepositoryError::NotFound(id) && id.0 >= old(self)@.len())
                    || (e is Full && feed_end_of(old(self)@) + 1 >= u64::MAX)),
            },
            positions_unique(final(self)@),
    {
        let r = self.accept_inner(id);
        proof {
            use_type_invariant(&*self);
            lemma_positions_unique(post_views(self.posts@), self.feed@);
        }
        r
    }

    fn accept_inner(&mut self, id: PostId) -> (r: Result<Post, PostRepositoryError>)
        ensures
            match r {
                Ok(p) => id.0 < old(self)@.len() && feed_end_of(old(self)@) + 1 < u64::MAX
                    && p@ == (PostView {
                        status: PostStatus::Accepted,
                        feed_position: match old(self)@[id.0 as int].feed_position {
                            Some(pos) => Some(pos),
                            None => Some((feed_end_of(old(self)@) + 1) as u64),
                        },
                        ..old(self)@[id.0 as int]
                    })
                    && final(self)@ == old(self)@.update(id.0 as int, p@),
                Err(e) => final(self)@ == old(self)@ && (
                    (e == PostRepositoryError::NotFound(id) && id.0 >= old(self)@.len())
                    || (e is Full && feed_end_of(old(self)@) + 1 >= u64::MAX)),
            },
    {
        proof {
            use_type_invariant(&*self);
            lemma_feed_end(post_views(self.posts@), self.feed@);
        }
        if self.feed.len() as u64 >= u64::MAX - 1 {
            return Err(PostRepositoryError::Full);
        }
        let next = self.feed.len() as u64 + 1;
        if id.0 >= self.posts.len() as u64 {
            return Err(PostRepositoryError::NotFound(id));
        }
        let i = id.0 as usize;
        let p = clone_post(&self.posts[i]);
        match p.feed_position {
            Some(_) => {
                let q = Post { status: PostStatus::Accepted, ..p };
                let copy = clone_post(&q);
                self.replace_at(i, copy);
                Ok(q)
            },
            None => {
                let q = Post { status: PostStatus::Accepted, feed_position: Some(next), ..p };
                let copy = clone_post(&q);
                let (mut posts, mut feed) = self.take_parts();
                let ghost before = posts@;
                let ghost fbefore = feed@;
                let ghost qv = q@;
                posts.set(i, copy);
                feed.push(id.0);
                proof {
                    let bv = post_views(before);
                    let pv = post_views(posts@);
                    assert(pv =~= bv.update(i as int, qv));
                    assert(bv[i as int].feed_position is None);
                    assert(qv.feed_position == Some(next));
                    assert(pv[i as int] == qv);
                    assert forall|k: int| 0 <= k < feed@.len() implies (#[trigger] feed@[k]) < pv.len()
                        && pv[feed@[k] as int].feed_position == Some((k + 1) as u64) by {
                        if k < fbefore.len() {
                            assert(feed@[k] == fbefore[k]);
                            let fk = fbefore[k] as int;
                            assert(fbefore[k] < bv.len() && bv[fk].feed_position == Some((k + 1) as u64));
                            assert(fk != i);
                            assert(pv[fk] == bv[fk]);
                        } else {
                            assert(feed@[k] == i);
                        }
                    }
                    assert forall|j: int| 0 <= j < pv.len() && (#[trigger] pv[j]).feed_position is Some implies {
                        let p = pv[j].feed_position->0;
                        1 <= p <= feed@.len() && feed@[p - 1] == j
                    } by {
                        if j != i {
                            assert(pv[j] == bv[j]);
                            assert(bv[j].feed_position is Some);
                            let p = bv[j].feed_position->0;
                            assert(1 <= p <= fbefore.len() && fbefore[p - 1] == j);
                            assert(feed@[p - 1] == fbefore[p - 1]);
                        } else {
                            assert(feed@[fbefore.len() as int] == i);
                        }
                    }
                    assert forall|j: int| 0 <= j < pv.len() implies (#[trigger] pv[j]).id.0 == j by {
                        assert(pv[j].id == bv[j].id);
                    }
                }
                *self = InMemoryPostRepository { posts, feed };
                Ok(q)
            },
        }
    }

    /// The listed entries at positions `cursor+1 ..= up_to`, in feed order.
    pub fn feed_after(&self, cursor: u64, up_to: u64) -> (r: Vec<Post>)
        ensures
            post_views(r@) == feed_window(self@, cursor as int, up_to as int),
    {
        proof {
            use_type_invariant(self);
            lemma_feed_end(post_views(self.posts@), self.feed@);
        }
        let ghost ps = self@;
        let fe = self.feed.len() as u64;
        let hi = if up_to < fe { up_to } else { fe };
        proof {
            lemma_window_past_end(ps, cursor as int, up_to as int, hi as int);
        }
        let mut r: Vec<Post> = Vec::new();
        if cursor >= hi {
            assert(post_views(r@) =~= feed_window(ps, cursor as int, hi as int));
            return r;
        }
        let mut pos = cursor;
        assert(post_views(r@) =~= feed_window(ps, cursor as int, pos as int));
        while pos < hi
            invariant
                cursor <= pos <= hi <= fe,
                fe == self.feed.len(),
                self.posts.len() == self@.len(),
                ps == self@,
                store_ok(self.posts@, self.feed@),
                post_views(r@) == feed_window(ps, cursor as int, pos as int),
            decreases hi - pos,
        {
            pos = pos + 1;
            proof {
                assert(self.feed@[pos - 1] < ps.len());
            }
            let idx = self.feed[(pos - 1) as usize] as usize;
            proof {
                lemma_at_position(ps, self.feed@, pos);
            }
            let p = &self.posts[idx];
            assert(ps[idx as int] == p@);
            assert(at_position(ps, pos) == Some(p@));
            assert(feed_window(ps, cursor as int, pos as int) == {
                let prev = feed_window(ps, cursor as int, pos - 1);
                if listed(p@) { prev.push(p@) } else { prev }
            });
            if p.status == PostStatus::Accepted || p.status == PostStatus::Banned {
                let ghost before = r@;
                r.push(clone_post(p));
                assert(post_views(r@) =~= post_views(before).push(p@));
            }
        }
        r
    }

    /// Every post with the given status, oldest submission first (ties by
    /// id).
    pub fn list_by_status(&self, status: PostStatus) -> (r: Vec<Post>)
        ensures
            sorted_by_submission(post_views(r@)),
            forall|i: int| 0 <= i < r@.len() ==> {
                let p = #[trigger] post_views(r@)[i];
                p.status == status && p.id.0 < self@.len() && self@[p.id.0 as int] == p
            },
            forall|k: int| 0 <= k < self@.len() && (#[trigger] self@[k]).status == status
                ==> post_views(r@).contains(self@[k]),
    {
        proof {
            use_type_invariant(self);
        }
        let ghost ps = self@;
        let mut r: Vec<Post> = Vec::new();
        let mut k: usize = 0;
        while k < self.posts.len()
            invariant
                k <= self.posts.len(),
                ps == self@,
                self.posts.len() == ps.len(),
                forall|i: int| 0 <= i < ps.len() ==> (#[trigger] ps[i]).id.0 == i,
                sorted_by_submission(post_views(r@)),
                forall|i: int| 0 <= i < r@.len() ==> {
                    let p = #[trigger] post_views(r@)[i];
                    p.status == status && p.id.0 < k && ps[p.id.0 as int] == p
                },
                forall|j: int| 0 <= j < k && (#[trigger] ps[j]).status == status
                    ==> post_views(r@).contains(ps[j]),
            decreases self.posts.len() - k,
        {
            let p = &self.posts[k];
            if p.status == status {
                let ghost x = p@;
                let ghost rv = post_views(r@);
                let mut pos: usize = 0;
                while pos < r.len()
                    && (r[pos].submitted_at < p.submitted_at
                        || (r[pos].submitted_at == p.submitted_at && r[pos].id.0 < p.id.0))
                    invariant
                        pos <= r.len(),
                        rv == post_views(r@),
                        x == p@,
                        forall|i: int| 0 <= i < pos ==> submitted_before(#[trigger] rv[i], x),
                    decreases r.len() - pos,
                {
                    pos = pos + 1;
                }
                proof {
                    assert(ps[k as int] == x);
                    assert(x.id.0 == k);
                    if pos < rv.len() {
                        assert(!submitted_before(rv[pos as int], x));
                        assert(rv[pos as int].id.0 < k);
                        assert(submitted_before(x, rv[pos as int]));
                        assert forall|j: int| pos <= j < rv.len() implies submitted_before(x, #[trigger] rv[j]) by {
                            if j > pos {
                                assert(submitted_before(rv[pos as int], rv[j]));
                            }
                        }
                    }
                }
                r.insert(pos, clone_post(p));
                proof {
                    let nv = post_views(r@);
                    assert(nv =~= rv.insert(pos as int, x));
                    assert forall|i: int, j: int| 0 <= i < j < nv.len() implies submitted_before(#[trigger] nv[i], #[trigger] nv[j]) by {
                        if j < pos {
                        } else if j == pos {
                        } else if i < pos {
                            assert(nv[j] == rv[j - 1]);
                            assert(submitted_before(nv[i], x));
                            assert(submitted_before(x, rv[j - 1]));
                        } else if i == pos {
                            assert(nv[j] == rv[j - 1]);
                        } else {
                            assert(nv[i] == rv[i - 1] && nv[j] == rv[j - 1]);
                        }
                    }
                    assert forall|i: int| 0 <= i < nv.len() implies {
                        let q = #[trigger] nv[i];
                        q.status == status && q.id.0 < k + 1 && ps[q.id.0 as int] == q
                    } by {
                        if i < pos {
                            assert(nv[i] == rv[i]);
                        } else if i > pos {
                            assert(nv[i] == rv[i - 1]);
                        }
                    }
                    assert forall|j: int| 0 <= j < k + 1 && (#[trigger] ps[j]).status == status
                        implies nv.contains(ps[j]) by {
                        if j == k {
                            assert(nv[pos as int] == ps[j]);
                        } else {
                            assert(rv.contains(ps[j]));
                            let i = choose|i: int| 0 <= i < rv.len() && rv[i] == ps[j];
                            if i < pos {
                                assert(nv[i] == rv[i]);
                            } else {
                                assert(nv[i + 1] == rv[i]);
                            }
                        }
                    }
                }
            }
            k = k + 1;
        }
        r
    }

    /// Every stored perceptual hash with its post, in id order.
    pub fn list_phashes(&self) -> (r: Vec<(PostId, u64)>)
        ensures
            r@ == hashes_of(self@),
    {
        let ghost ps = self@;
        let mut r: Vec<(PostId, u64)> = Vec::new();
        let mut k: usize = 0;
        while k < self.posts.len()
            invariant
                k <= self.posts.len(),
                ps == self@,
                self.posts.len() == ps.len(),
                r@ == hashes_of(ps.take(k as int)),
            decreases self.posts.len() - k,
        {
            assert(ps.take(k + 1).drop_last() =~= ps.take(k as int));
            match self.posts[k].phash {
                Some(h) => r.push((self.posts[k].id, h)),
                None => {},
            }
            k = k + 1;
        }
        assert(ps.take(ps.len() as int) =~= ps);
        r
    }

    /// Store (or clear) a post's perceptual hash.
    pub fn set_phash(&mut self, id: PostId, phash: Option<u64>) -> (r: Result<(), PostRepositoryError>)
        ensures
            match r {
                Ok(_) => id.0 < old(self)@.len()
                    && final(self)@ == old(self)@.update(id.0 as int, PostView { phash, ..old(self)@[id.0 as int] }),
                Err(e) => e == PostRepositoryError::NotFound(id) && id.0 >= old(self)@.len() && final(self)@ == old(self)@,
            },
    {
        if id.0 >= self.posts.len() as u64 {
            return Err(PostRepositoryError::NotFound(id));
        }
        let i = id.0 as usize;
        let p = clone_post(&self.posts[i]);
        self.replace_at(i, Post { phash, ..p });
        Ok(())
    }
}


/// With consistent bookkeeping, the feed end is the number of positioned
/// posts, and exactly the positions `1..=end` are held.
pub proof fn lemma_feed_end(ps: Seq<PostView>, feed: Seq<u64>)
    requires
        feed_consistent(ps, feed),
    ensures
        feed_end_of(ps) == feed.len(),
        forall|pos: u64| 1 <= pos <= feed.len() <==> (#[trigger] at_position(ps, pos)) is Some,
{
    lemma_feed_end_max(ps);
    if feed_end_of(ps) != 0 {
        let i = choose|i: int| 0 <= i < ps.len() && ps[i].feed_position == Some(feed_end_of(ps) as u64);
        assert(ps[i].feed_position is Some);
    }
    if feed.len() > 0 {
        let last = feed[feed.len() - 1] as int;
        assert(ps[last].feed_position == Some(feed.len() as u64));
        assert(ps[last].feed_position is Some);
    }
    assert forall|pos: u64| 1 <= pos <= feed.len() <==> (#[trigger] at_position(ps, pos)) is Some by {
        if 1 <= pos <= feed.len() {
            assert(ps[feed[pos - 1] as int].feed_position == Some(pos));
        }
        if at_position(ps, pos) is Some {
            let i = choose|i: int| 0 <= i < ps.len() && ps[i].feed_position == Some(pos);
            assert(ps[i].feed_position is Some);
        }
    }
}

/// `feed_end_of` is the largest position held (or 0).
pub proof fn lemma_feed_end_max(ps: Seq<PostView>)
    ensures
        forall|i: int| 0 <= i < ps.len() && (#[trigger] ps[i]).feed_position is Some
            ==> ps[i].feed_position->0 <= feed_end_of(ps),
        feed_end_of(ps) <= u64::MAX,
        feed_end_of(ps) == 0 || exists|i: int| 0 <= i < ps.len() && ps[i].feed_position == Some(feed_end_of(ps) as u64),
    decreases ps.len(),
{
    if ps.len() > 0 {
        let rest = ps.drop_last();
        lemma_feed_end_max(rest);
        assert forall|i: int| 0 <= i < ps.len() && (#[trigger] ps[i]).feed_position is Some
            implies ps[i].feed_position->0 <= feed_end_of(ps) by {
            if i < ps.len() - 1 {
                assert(ps[i] == rest[i]);
            }
        }
        if feed_end_of(ps) != 0 && feed_end_of(ps) == feed_end_of(rest) {
            let i = choose|i: int| 0 <= i < rest.len() && rest[i].feed_position == Some(feed_end_of(rest) as u64);
            assert(ps[i] == rest[i]);
        }
    }
}

/// The post at a held position is the one the feed list names.
pub proof fn lemma_at_position(ps: Seq<PostView>, feed: Seq<u64>, pos: u64)
    requires
        feed_consistent(ps, feed),
        1 <= pos <= feed.len(),
    ensures
        at_position(ps, pos) == Some(ps[feed[pos - 1] as int]),
{
    let i = feed[pos - 1] as int;
    assert(ps[i].feed_position == Some(pos));
    let c = choose|c: int| 0 <= c < ps.len() && ps[c].feed_position == Some(pos);
    assert(ps[c].feed_position is Some);
}

/// Positions past the feed end add nothing to a window.
pub proof fn lemma_window_past_end(ps: Seq<PostView>, lo: int, hi: int, end: int)
    requires
        0 <= end,
        hi <= u64::MAX,
        end == hi || (end < hi && forall|pos: u64| end < pos <= hi ==> (#[trigger] at_position(ps, pos)) is None),
    ensures
        feed_window(ps, lo, hi) == feed_window(ps, lo, end),
    decreases hi - end,
{
    if end < hi {
        assert(at_position(ps, hi as u64) is None);
        if hi - 1 > lo {
            lemma_window_past_end(ps, lo, hi - 1, end);
        } else {
            assert(feed_window(ps, lo, hi - 1) =~= seq![]);
            if end > lo {
                lemma_window_past_end(ps, lo, hi - 1, end);
            }
        }
    }
}


/// `a` was submitted before `b` (ties broken by id).
pub open spec fn submitted_before(a: PostView, b: PostView) -> bool {
    a.submitted_at < b.submitted_at || (a.submitted_at == b.submitted_at && a.id.0 < b.id.0)
}

pub open spec fn sorted_by_submission(ps: Seq<PostView>) -> bool {
    forall|i: int, j: int| 0 <= i < j < ps.len() ==> submitted_before(#[trigger] ps[i], #[trigger] ps[j])
}

/// `(id, hash)` for every post that has a perceptual hash, in order.
pub open spec fn hashes_of(ps: Seq<PostView>) -> Seq<(PostId, u64)>
    decreases ps.len(),
{
    if ps.len() == 0 {
        seq![]
    } else {
        let prev = hashes_of(ps.drop_last());
        match ps.last().phash {
            Some(h) => prev.push((ps.last().id, h)),
            None => prev,
        }
    }
}

/// Rewriting one post without moving its feed position leaves the feed
/// end where it was.
pub proof fn lemma_feed_end_update_same_position(ps: Seq<PostView>, i: int, q: PostView)
    requires
        0 <= i < ps.len(),
        q.feed_position == ps[i].feed_position,
    ensures
        feed_end_of(ps.update(i, q)) == feed_end_of(ps),
    decreases ps.len(),
{
    let u = ps.update(i, q);
    if i == ps.len() - 1 {
        assert(u.drop_last() =~= ps.drop_last());
    } else {
        assert(u.drop_last() =~= ps.drop_last().update(i, q));
        lemma_feed_end_update_same_position(ps.drop_last(), i, q);
    }
}

/// No two posts share a feed position.
pub open spec fn positions_unique(ps: Seq<PostView>) -> bool {
    forall|i: int, j: int|
        0 <= i < j < ps.len() && (#[trigger] ps[i]).feed_position is Some
            ==> (#[trigger] ps[j]).feed_position != ps[i].feed_position
}

pub proof fn lemma_positions_unique(ps: Seq<PostView>, feed: Seq<u64>)
    requires
        feed_consistent(ps, feed),
    ensures
        positions_unique(ps),
{
    assert forall|i: int, j: int|
        0 <= i < j < ps.len() && (#[trigger] ps[i]).feed_position is Some
            implies (#[trigger] ps[j]).feed_position != ps[i].feed_position by {
        let p = ps[i].feed_position->0;
        assert(feed[p - 1] == i);
        if ps[j].feed_position == ps[i].feed_position {
            assert(feed[p - 1] == j);
        }
    }
}

} // verus!
