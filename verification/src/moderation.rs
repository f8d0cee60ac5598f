//! Moderation decisions on submissions: approve (into the feed), approve
//! with extra tags, reject.

use vstd::prelude::*;
use crate::diagnosis::{push_status, status_name};
use crate::handler::{describe, describe_spec, require_role, role_check, HandlerError};
use crate::post::{feed_end_of, post_by_id, InMemoryPostRepository, Post, PostId, PostStatus, PostView};
use crate::text::{contains_string, decimal, push_decimal, push_str, views};
use crate::user::{InMemoryUserRepository, Role, TelegramId, UserId};

verus! {

/// A post once approved by `by` at `at`: accepted, holding its feed slot or
/// the next one.
pub open spec fn approved(ps: Seq<PostView>, p: PostView, by: UserId, at: i64) -> PostView {
    PostView {
        status: PostStatus::Accepted,
        feed_position: match p.feed_position {
            Some(pos) => Some(pos),
            None => Some((feed_end_of(ps) + 1) as u64),
        },
        moderated_by: Some(by),
        moderated_at: Some(at),
        ..p
    }
}

/// `tags` followed by the extra tags it does not hold yet, each once, in
/// the order given.
pub open spec fn merged_tags(tags: Seq<Seq<char>>, extra: Seq<Seq<char>>) -> Seq<Seq<char>>
    decreases extra.len(),
{
    if extra.len() == 0 {
        tags
    } else {
        let prev = merged_tags(tags, extra.drop_last());
        if prev.contains(extra.last()) { prev } else { prev.push(extra.last()) }
    }
}

/// Approve a post into the feed (moderators only): it becomes Accepted,
/// takes the next feed position unless it already holds one, and records
/// who moderated it and when.
pub fn approve(
    actor: TelegramId,
    post_id: PostId,
    now: i64,
    users: &InMemoryUserRepository,
    posts: &mut InMemoryPostRepository,
) -> (r: Result<Post, HandlerError>)
    ensures
        match role_check(users@, actor, Role::Moderator) {
            Err(e) => r == Err::<Post, HandlerError>(e) && final(posts)@ == old(posts)@,
            Ok(m) => match post_by_id(old(posts)@, post_id) {
                None => r == Err::<Post, HandlerError>(HandlerError::PostNotFound(post_id)) && final(posts)@ == old(posts)@,
                Some(p) => if feed_end_of(old(posts)@) + 1 >= u64::MAX {
                    r == Err::<Post, HandlerError>(HandlerError::RepositoryError) && final(posts)@ == old(posts)@
                } else {
                    r is Ok && r->Ok_0@ == approved(old(posts)@, p, m.id, now)
                        && final(posts)@ == old(posts)@.update(post_id.0 as int, r->Ok_0@)
                },
            },
        },
{
    let m = require_role(users, actor, Role::Moderator)?;
    if posts.find_by_id(post_id).is_none() {
        return Err(HandlerError::PostNotFound(post_id));
    }
    let ghost before = posts@;
    assert(post_id.0 < before.len());
    match posts.accept_into_feed(post_id) {
        Ok(_) => {},
        Err(_) => return Err(HandlerError::RepositoryError),
    }
    let ghost mid = posts@;
    match posts.record_moderation(post_id, m.id, now) {
        Ok(_) => {},
        Err(_) => return Err(HandlerError::RepositoryError),
    }
    assert(posts@ == mid.update(post_id.0 as int, PostView { moderated_by: Some(m.id), moderated_at: Some(now), ..mid[post_id.0 as int] }));
    assert(posts@[post_id.0 as int] == approved(before, before[post_id.0 as int], m.id, now));
    match posts.find_by_id(post_id) {
        Some(p) => {
            assert(p@ == posts@[post_id.0 as int]);
            assert(posts@ =~= before.update(post_id.0 as int, p@));
            Ok(p)
        },
        None => Err(HandlerError::RepositoryError),
    }
}

/// Reject a post (moderators only): it becomes Rejected, and who moderated
/// it and when is recorded.
pub fn reject(
    actor: TelegramId,
    post_id: PostId,
    now: i64,
    users: &InMemoryUserRepository,
    posts: &mut InMemoryPostRepository,
) -> (r: Result<Post, HandlerError>)
    ensures
        match role_check(users@, actor, Role::Moderator) {
            Err(e) => r == Err::<Post, HandlerError>(e) && final(posts)@ == old(posts)@,
            Ok(m) => match post_by_id(old(posts)@, post_id) {
                None => r == Err::<Post, HandlerError>(HandlerError::PostNotFound(post_id)) && final(posts)@ == old(posts)@,
                Some(p) => r is Ok && r->Ok_0@ == (PostView {
                    status: PostStatus::Rejected,
                    moderated_by: Some(m.id),
                    moderated_at: Some(now),
                    ..p
                }) && final(posts)@ == old(posts)@.update(post_id.0 as int, r->Ok_0@),
            },
        },
{
    let m = require_role(users, actor, Role::Moderator)?;
    let ghost before = posts@;
    match posts.set_status_to(post_id, PostStatus::Rejected) {
        Ok(_) => {},
        Err(_) => return Err(HandlerError::PostNotFound(post_id)),
    }
    match posts.record_moderation(post_id, m.id, now) {
        Ok(_) => {},
        Err(_) => return Err(HandlerError::RepositoryError),
    }
    match posts.find_by_id(post_id) {
        Some(p) => {
            assert(posts@ =~= before.update(post_id.0 as int, p@));
            Ok(p)
        },
        None => Err(HandlerError::RepositoryError),
    }
}

pub(crate) fn merge_tags(tags: &Vec<String>, extra: &Vec<String>) -> (r: Vec<String>)
    ensures
        views(r@) == merged_tags(views(tags@), views(extra@)),
{
    let mut r = crate::text::clone_strings(tags);
    let mut k: usize = 0;
    while k < extra.len()
        invariant
            k <= extra.len(),
            views(r@) == merged_tags(views(tags@), views(extra@).take(k as int)),
        decreases extra.len() - k,
    {
        assert(views(extra@).take(k + 1).drop_last() =~= views(extra@).take(k as int));
        if !contains_string(r.as_slice(), &extra[k]) {
            r.push(extra[k].clone());
            assert(views(r@) =~= merged_tags(views(tags@), views(extra@).take(k as int)).push(extra@[k as int]@));
        }
        k = k + 1;
    }
    assert(views(extra@).take(extra.len() as int) =~= views(extra@));
    r
}

/// Approve a post with extra tags merged in (moderators only): the tags it
/// lacks are appended once each, then it is approved.
pub fn approve_with_extra_tags(
    actor: TelegramId,
    post_id: PostId,
    extra: &Vec<String>,
    now: i64,
    users: &InMemoryUserRepository,
    posts: &mut InMemoryPostRepository,
) -> (r: Result<Post, HandlerError>)
    ensures
        match role_check(users@, actor, Role::Moderator) {
            Err(e) => r == Err::<Post, HandlerError>(e) && final(posts)@ == old(posts)@,
            Ok(m) => match post_by_id(old(posts)@, post_id) {
                None => r == Err::<Post, HandlerError>(HandlerError::PostNotFound(post_id)) && final(posts)@ == old(posts)@,
                Some(p) => if feed_end_of(old(posts)@) + 1 >= u64::MAX {
                    r == Err::<Post, HandlerError>(HandlerError::RepositoryError) && final(posts)@ == old(posts)@
                } else {
                    r is Ok && r->Ok_0@ == approved(
                        old(posts)@,
                        PostView { tags: merged_tags(p.tags, views(extra@)), ..p },
                        m.id,
                        now,
                    ) && final(posts)@ == old(posts)@.update(post_id.0 as int, r->Ok_0@)
                },
            },
        },
{
    require_role(users, actor, Role::Moderator)?;
    let post = match posts.find_by_id(post_id) {
        Some(p) => p,
        None => return Err(HandlerError::PostNotFound(post_id)),
    };
    if posts.feed_end() >= u64::MAX - 1 {
        return Err(HandlerError::RepositoryError);
    }
    let ghost before = posts@;
    let tags = merge_tags(&post.tags, extra);
    match posts.set_tags(post_id, tags) {
        Ok(_) => {},
        Err(_) => return Err(HandlerError::PostNotFound(post_id)),
    }
    proof {
        crate::post::lemma_feed_end_update_same_position(before, post_id.0 as int, posts@[post_id.0 as int]);
    }
    let r = approve(actor, post_id, now, users, posts);
    proof {
        assert(before.update(post_id.0 as int, posts@[post_id.0 as int]).update(post_id.0 as int, posts@[post_id.0 as int]) =~= before.update(post_id.0 as int, posts@[post_id.0 as int]));
    }
    r
}

// ------------------------------------------------------------ replies ----

/// A button decision as it is appended to the review message.
pub open spec fn decision_text(r: Result<Post, HandlerError>) -> Seq<char> {
    match r {
        Ok(p) => "Post #"@ + decimal(p.id.0 as nat) + " → "@ + status_name(p.status),
        Err(e) => describe_spec(e),
    }
}

pub fn decision_outcome(r: Result<Post, HandlerError>) -> (s: String)
    ensures
        s@ == decision_text(r),
{
    match r {
        Ok(p) => {
            let mut s = String::new();
            push_str(&mut s, "Post #");
            push_decimal(&mut s, p.id.0);
            push_str(&mut s, " → ");
            push_status(&mut s, p.status);
            s
        },
        Err(e) => describe(e),
    }
}

/// The message that tells a submitter why their post was rejected.
pub fn rejection_notice(post_id: PostId, reason: &str) -> (s: String)
    ensures
        s@ == "Your submission #"@ + decimal(post_id.0 as nat) + " was rejected by the moderators.\nReason: "@ + reason@,
{
    let mut s = String::new();
    push_str(&mut s, "Your submission #");
    push_decimal(&mut s, post_id.0);
    push_str(&mut s, " was rejected by the moderators.\nReason: ");
    push_str(&mut s, reason);
    s
}

/// The moderator's reply after a reject with a reason: whether the
/// submitter could be told.
pub fn rejected_reply(post_id: PostId, notified: bool) -> (s: String)
    ensures
        s@ == if notified {
            "Post #"@ + decimal(post_id.0 as nat) + " rejected — the submitter was told why."@
        } else {
            "Post #"@ + decimal(post_id.0 as nat)
                + " rejected. (Couldn't DM the submitter — they may not have a chat open with the bot.)"@
        },
{
    let mut s = String::new();
    push_str(&mut s, "Post #");
    push_decimal(&mut s, post_id.0);
    if notified {
        push_str(&mut s, " rejected — the submitter was told why.");
    } else {
        push_str(&mut s, " rejected. (Couldn't DM the submitter — they may not have a chat open with the bot.)");
    }
    s
}

/// The moderator's reply after an approve with extra tags.
pub fn extra_tags_reply(post_id: PostId, tags: usize, requested: usize) -> (s: String)
    ensures
        s@ == "Post #"@ + decimal(post_id.0 as nat) + " accepted into the feed with "@ + decimal(tags as nat) + " tags ("@
            + decimal(requested as nat) + " supplied, duplicates ignored)."@,
{
    let mut s = String::new();
    push_str(&mut s, "Post #");
    push_decimal(&mut s, post_id.0);
    push_str(&mut s, " accepted into the feed with ");
    push_decimal(&mut s, tags as u64);
    push_str(&mut s, " tags (");
    push_decimal(&mut s, requested as u64);
    push_str(&mut s, " supplied, duplicates ignored).");
    s
}

/// The moderator's note after a take-down: how many channel copies went.
pub fn takedown_reply(post_id: PostId, deleted: usize, deliveries: usize) -> (s: String)
    ensures
        s@ == "Post #"@ + decimal(post_id.0 as nat) + " taken down ("@ + decimal(deleted as nat) + "/"@
            + decimal(deliveries as nat) + " channel message(s) deleted)."@,
{
    let mut s = String::new();
    push_str(&mut s, "Post #");
    push_decimal(&mut s, post_id.0);
    push_str(&mut s, " taken down (");
    push_decimal(&mut s, deleted as u64);
    push_str(&mut s, "/");
    push_decimal(&mut s, deliveries as u64);
    push_str(&mut s, " channel message(s) deleted).");
    s
}

} // verus!
