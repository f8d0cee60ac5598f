//! Use cases behind the bot's commands: authorization, feed inspection,
//! poster lifecycle, `/start`, the report loop and "more like this".

use vstd::prelude::*;
use crate::feed::{opt_refusal, refusal_for, refusal_spec, refusal_text};
use crate::policy::{
    count_for_spec, newest_first, reason_view, strictly_sorted, reports_about, reports_not_about, InMemoryForbiddenTagRepository,
    InMemoryReportRepository, InMemoryRequiredTagRepository, InMemoryShadowBanRepository,
    InMemorySpoilerTagRepository, Report, ScoreboardSettings,
};
use crate::post::{
    feed_end_of, feed_window, opt_view, post_by_id, post_views, InMemoryPostRepository, Post,
    PostId, PostStatus, PostView,
};
use crate::poster::{
    index_of, poster_by_id, poster_views, InMemoryPosterRepository, PostInterval, Poster, PosterId, PosterView,
};
use crate::publisher::{
    config_for, count_chat, for_post, publications_where, InMemoryPublicationRepository,
    InMemoryPublisherConfigRepository, Publication, PublisherConfig,
};
use crate::rule_text::term_texts;
use crate::tag_rule::{rules_view, tag_set, terms_text, terms_to_string, terms_view, term_text, Lit, RuleV, TagRule, TagTerm};
use crate::text::{
    lower, lowercase, parse_u64, parse_u64_spec, str_eq,
    chars_of, decimal, join, join_with, next_whitespace, next_ws, push_decimal, push_str, push_signed_decimal, signed_decimal, string_of,
    sub_vec, trim_bounds, trimmed, views,
};
use crate::user::{
    rank, user_by_id, user_by_telegram, users_with_role, users_wf, InMemoryUserRepository, Role, TelegramId,
    User, UserId,
};

verus! {

#[derive(Debug)]
pub enum HandlerError {
    NotAuthorized(UserId),
    /// The actor is not a registered user.
    UnknownActor,
    RepositoryError,
    NotFound(UserId),
    PostNotFound(PostId),
    InvalidSource(String),
    /// The source was already submitted (as this post).
    DuplicateSubmission(PostId),
    SubmitterBanned,
    Fetch(String),
    InvalidState(String),
    UnknownUsername(String),
    ResolveFailed(String),
}

/// What a handler error says to the person who caused it.
pub open spec fn handler_error_text(e: HandlerError) -> Seq<char> {
    match e {
        HandlerError::NotAuthorized(u) => "Not Authorized: "@ + decimal(u.0 as nat),
        HandlerError::UnknownActor => "Actor is not a registered user"@,
        HandlerError::RepositoryError => "Repository Error"@,
        HandlerError::NotFound(u) => "Not Found: "@ + decimal(u.0 as nat),
        HandlerError::PostNotFound(p) => "Post Not Found: "@ + decimal(p.0 as nat),
        HandlerError::InvalidSource(s) => "Not a supported source URL: "@ + s@,
        HandlerError::DuplicateSubmission(p) => "This source was already submitted (post "@ + decimal(p.0 as nat) + ")"@,
        HandlerError::SubmitterBanned => "Submitter is banned from submitting"@,
        HandlerError::Fetch(s) => "Upstream fetch failed: "@ + s@,
        HandlerError::InvalidState(s) => "Invalid state: "@ + s@,
        HandlerError::UnknownUsername(s) => "Unknown Telegram username: @"@ + s@,
        HandlerError::ResolveFailed(s) => "Telegram resolve failed: "@ + s@,
    }
}

impl HandlerError {
    pub fn to_string(&self) -> (s: String)
        ensures
            s@ == handler_error_text(*self),
    {
        let mut s = String::new();
        match self {
            HandlerError::NotAuthorized(u) => {
                push_str(&mut s, "Not Authorized: ");
                push_decimal(&mut s, u.0);
            },
            HandlerError::UnknownActor => push_str(&mut s, "Actor is not a registered user"),
            HandlerError::RepositoryError => push_str(&mut s, "Repository Error"),
            HandlerError::NotFound(u) => {
                push_str(&mut s, "Not Found: ");
                push_decimal(&mut s, u.0);
            },
            HandlerError::PostNotFound(p) => {
                push_str(&mut s, "Post Not Found: ");
                push_decimal(&mut s, p.0);
            },
            HandlerError::InvalidSource(x) => {
                push_str(&mut s, "Not a supported source URL: ");
                push_str(&mut s, x.as_str());
            },
            HandlerError::DuplicateSubmission(p) => {
                push_str(&mut s, "This source was already submitted (post ");
                push_decimal(&mut s, p.0);
                push_str(&mut s, ")");
            },
            HandlerError::SubmitterBanned => push_str(&mut s, "Submitter is banned from submitting"),
            HandlerError::Fetch(x) => {
                push_str(&mut s, "Upstream fetch failed: ");
                push_str(&mut s, x.as_str());
            },
            HandlerError::InvalidState(x) => {
                push_str(&mut s, "Invalid state: ");
                push_str(&mut s, x.as_str());
            },
            HandlerError::UnknownUsername(x) => {
                push_str(&mut s, "Unknown Telegram username: @");
                push_str(&mut s, x.as_str());
            },
            HandlerError::ResolveFailed(x) => {
                push_str(&mut s, "Telegram resolve failed: ");
                push_str(&mut s, x.as_str());
            },
        }
        s
    }
}

/// The registered actor, if their role is at least `role`.
pub open spec fn role_check(users: Seq<User>, actor: TelegramId, role: Role) -> Result<User, HandlerError> {
    match user_by_telegram(users, actor) {
        None => Err(HandlerError::UnknownActor),
        Some(u) => if rank(u.role) >= rank(role) {
            Ok(u)
        } else {
            Err(HandlerError::NotAuthorized(u.id))
        },
    }
}

/// The actor's user record, when they are registered with at least `role`.
pub fn require_role(users: &InMemoryUserRepository, actor: TelegramId, role: Role) -> (r: Result<User, HandlerError>)
    ensures
        r == role_check(users@, actor, role),
{
    match users.find_by_telegram_id(actor) {
        None => Err(HandlerError::UnknownActor),
        Some(u) => if u.role.at_least(role) {
            Ok(u)
        } else {
            Err(HandlerError::NotAuthorized(u.id))
        },
    }
}

/// A message naming a poster: `<before><id><after>`.
fn poster_message(before: &str, id: PosterId, after: &str) -> (s: String)
    ensures
        s@ == before@ + decimal(id.0 as nat) + after@,
{
    let mut s = String::new();
    push_str(&mut s, before);
    push_decimal(&mut s, id.0);
    push_str(&mut s, after);
    s
}

pub open spec fn no_poster_text(id: PosterId) -> Seq<char> {
    "poster "@ + decimal(id.0 as nat) + " does not exist"@
}

// --------------------------------------------------------------- feed ----

/// The feed from one post onward.
#[derive(Debug)]
pub struct FeedSlice {
    /// The post the cursor was resolved from.
    pub anchor: Post,
    /// Everything listed after the anchor, in feed order.
    pub entries: Vec<Post>,
    /// The feed end at the time of the scan.
    pub feed_end: u64,
}

pub open spec fn not_in_feed_text(id: PostId) -> Seq<char> {
    "post #"@ + decimal(id.0 as nat) + " has no feed position — it is not in the feed"@
}

/// Everything that comes after `post_id` in the feed (moderators only).
pub fn after_post(
    actor: TelegramId,
    post_id: PostId,
    users: &InMemoryUserRepository,
    posts: &InMemoryPostRepository,
) -> (r: Result<FeedSlice, HandlerError>)
    ensures
        match role_check(users@, actor, Role::Moderator) {
            Err(e) => r == Err::<FeedSlice, HandlerError>(e),
            Ok(_) => match post_by_id(posts@, post_id) {
                None => r == Err::<FeedSlice, HandlerError>(HandlerError::PostNotFound(post_id)),
                Some(p) => match p.feed_position {
                    None => r is Err && r->Err_0 is InvalidState && r->Err_0->InvalidState_0@ == not_in_feed_text(post_id),
                    Some(cursor) => r is Ok && r->Ok_0.anchor@ == p
                        && r->Ok_0.feed_end == feed_end_of(posts@)
                        && post_views(r->Ok_0.entries@) == feed_window(posts@, cursor as int, feed_end_of(posts@) as int),
                },
            },
        },
{
    require_role(users, actor, Role::Moderator)?;
    let anchor = match posts.find_by_id(post_id) {
        Some(p) => p,
        None => return Err(HandlerError::PostNotFound(post_id)),
    };
    let cursor = match anchor.feed_position {
        Some(c) => c,
        None => {
            let mut msg = String::new();
            push_str(&mut msg, "post #");
            push_decimal(&mut msg, post_id.0);
            push_str(&mut msg, " has no feed position — it is not in the feed");
            return Err(HandlerError::InvalidState(msg));
        },
    };
    let feed_end = posts.feed_end();
    let entries = posts.feed_after(cursor, feed_end);
    Ok(FeedSlice { anchor, entries, feed_end })
}

/// One entry of a poster's upcoming queue, with that poster's verdict.
#[derive(Debug)]
pub struct PosterQueueEntry {
    pub post: Post,
    /// Why this poster would pass it over; `None` = it would post this.
    pub refusal: Option<String>,
}

/// One poster's view of the feed ahead of its cursor.
#[derive(Debug)]
pub struct PosterQueue {
    pub poster: Poster,
    pub feed_end: u64,
    pub entries: Vec<PosterQueueEntry>,
}

pub open spec fn verdict_text(p: PosterView, e: PostView) -> Option<Seq<char>> {
    match refusal_spec(p, e.tags.to_set()) {
        Some(r) => Some(refusal_text(r)),
        None => None,
    }
}

pub open spec fn no_poster_hash_text(id: PosterId) -> Seq<char> {
    "no poster #"@ + decimal(id.0 as nat)
}

/// What one poster still has ahead of it: every entry in `(cursor, end]`
/// with the poster's own verdict attached (moderators only).
pub fn poster_queue(
    actor: TelegramId,
    poster_id: PosterId,
    users: &InMemoryUserRepository,
    posters: &InMemoryPosterRepository,
    posts: &InMemoryPostRepository,
) -> (r: Result<PosterQueue, HandlerError>)
    ensures
        match role_check(users@, actor, Role::Moderator) {
            Err(e) => r == Err::<PosterQueue, HandlerError>(e),
            Ok(_) => match poster_by_id(posters@, poster_id) {
                None => r is Err && r->Err_0 is InvalidState && r->Err_0->InvalidState_0@ == no_poster_hash_text(poster_id),
                Some(p) => r is Ok && r->Ok_0.poster@ == p && r->Ok_0.feed_end == feed_end_of(posts@) && {
                    let w = feed_window(posts@, p.cursor as int, feed_end_of(posts@) as int);
                    let es = r->Ok_0.entries@;
                    &&& es.len() == w.len()
                    &&& forall|i: int| 0 <= i < es.len() ==> {
                        &&& (#[trigger] es[i]).post@ == w[i]
                        &&& match es[i].refusal {
                            Some(t) => verdict_text(p, w[i]) == Some(t@),
                            None => verdict_text(p, w[i]) is None,
                        }
                    }
                },
            },
        },
{
    require_role(users, actor, Role::Moderator)?;
    let poster = match posters.find_by_id(poster_id) {
        Some(p) => p,
        None => {
            let mut msg = String::new();
            push_str(&mut msg, "no poster #");
            push_decimal(&mut msg, poster_id.0);
            return Err(HandlerError::InvalidState(msg));
        },
    };
    let feed_end = posts.feed_end();
    let window = posts.feed_after(poster.cursor, feed_end);
    let ghost w = feed_window(posts@, poster.cursor as int, feed_end as int);
    let mut entries: Vec<PosterQueueEntry> = Vec::new();
    let mut k: usize = 0;
    while k < window.len()
        invariant
            k <= window.len(),
            post_views(window@) == w,
            entries@.len() == k,
            forall|i: int| 0 <= i < k ==> {
                &&& (#[trigger] entries@[i]).post@ == w[i]
                &&& match entries@[i].refusal {
                    Some(t) => verdict_text(poster@, w[i]) == Some(t@),
                    None => verdict_text(poster@, w[i]) is None,
                }
            },
        decreases window.len() - k,
    {
        let post = crate::post::clone_post(&window[k]);
        assert(post_views(window@)[k as int] == window@[k as int]@);
        assert(tag_set(post.tags@) == post@.tags.to_set());
        let verdict = refusal_for(&poster, post.tags.as_slice());
        let refusal = match verdict {
            Some(r) => Some(r.to_string()),
            None => None,
        };
        entries.push(PosterQueueEntry { post, refusal });
        k = k + 1;
    }
    Ok(PosterQueue { poster, feed_end, entries })
}

// ------------------------------------------------------------- posters ----

/// `/newposter`: a poster is born from its subscription and cadence, and
/// bound to its channel at once.
#[derive(Debug)]
pub struct NewPoster {
    pub actor: TelegramId,
    pub subscribed_tags: Vec<TagTerm>,
    pub forbidden_tags: Vec<String>,
    pub interval: PostInterval,
    /// The delivery destination.
    pub chat_id: i64,
    pub token_path: String,
}

/// Create a poster, cursor at the feed start, bound to the command's chat
/// (owner only).
pub fn new_poster(
    cmd: NewPoster,
    users: &InMemoryUserRepository,
    posters: &mut InMemoryPosterRepository,
    configs: &mut InMemoryPublisherConfigRepository,
) -> (r: Result<Poster, HandlerError>)
    ensures
        match role_check(users@, cmd.actor, Role::Owner) {
            Err(e) => r == Err::<Poster, HandlerError>(e) && final(posters)@ == old(posters)@
                && final(configs)@ == old(configs)@,
            Ok(_) => if old(posters).next_id() == u64::MAX {
                r == Err::<Poster, HandlerError>(HandlerError::RepositoryError) && final(posters)@ == old(posters)@
                    && final(configs)@ == old(configs)@
            } else {
                r is Ok && r->Ok_0@ == (PosterView {
                    id: PosterId(old(posters).next_id()),
                    subscribed: terms_view(cmd.subscribed_tags@),
                    forbidden: views(cmd.forbidden_tags@),
                    interval: cmd.interval@,
                    cursor: 0,
                    rules: Seq::empty(),
                })
                && final(posters)@ == old(posters)@.push(r->Ok_0@)
                && config_for(final(configs)@, r->Ok_0.id) == Some(PublisherConfig {
                    poster_id: r->Ok_0.id,
                    chat_id: cmd.chat_id,
                    token_path: cmd.token_path,
                    receive_announcements: true,
                })
                && forall|p: PosterId| p != r->Ok_0.id ==> config_for(final(configs)@, p) == config_for(old(configs)@, p)
            },
        },
{
    require_role(users, cmd.actor, Role::Owner)?;
    let NewPoster { actor, subscribed_tags, forbidden_tags, interval, chat_id, token_path } = cmd;
    let poster = match posters.create(subscribed_tags, forbidden_tags, interval, 0) {
        Ok(p) => p,
        Err(_) => return Err(HandlerError::RepositoryError),
    };
    configs.upsert(PublisherConfig { poster_id: poster.id, chat_id, token_path, receive_announcements: true });
    Ok(poster)
}

/// `/settags`.
#[derive(Debug)]
pub struct SetTags {
    pub actor: TelegramId,
    pub poster_id: PosterId,
    pub subscribed_tags: Vec<TagTerm>,
    pub forbidden_tags: Vec<String>,
}

/// Replace a poster's tag subscription (owner only).
pub fn set_tags(
    cmd: SetTags,
    users: &InMemoryUserRepository,
    posters: &mut InMemoryPosterRepository,
) -> (r: Result<Poster, HandlerError>)
    ensures
        match role_check(users@, cmd.actor, Role::Owner) {
            Err(e) => r == Err::<Poster, HandlerError>(e) && final(posters)@ == old(posters)@,
            Ok(_) => match poster_by_id(old(posters)@, cmd.poster_id) {
                None => r is Err && r->Err_0 is InvalidState && r->Err_0->InvalidState_0@ == no_poster_text(cmd.poster_id)
                    && final(posters)@ == old(posters)@,
                Some(p) => r is Ok && r->Ok_0@ == (PosterView {
                    subscribed: terms_view(cmd.subscribed_tags@),
                    forbidden: views(cmd.forbidden_tags@),
                    ..p
                }) && final(posters)@ == old(posters)@.update(index_of(old(posters)@, cmd.poster_id), r->Ok_0@),
            },
        },
{
    require_role(users, cmd.actor, Role::Owner)?;
    let SetTags { actor, poster_id, subscribed_tags, forbidden_tags } = cmd;
    match posters.set_tags(poster_id, subscribed_tags, forbidden_tags) {
        Ok(p) => Ok(p),
        Err(_) => Err(HandlerError::InvalidState(poster_message("poster ", poster_id, " does not exist"))),
    }
}

/// Replace a poster's conditional rules (owner only).
pub fn set_rules(
    actor: TelegramId,
    poster_id: PosterId,
    rules: Vec<TagRule>,
    users: &InMemoryUserRepository,
    posters: &mut InMemoryPosterRepository,
) -> (r: Result<Poster, HandlerError>)
    ensures
        match role_check(users@, actor, Role::Owner) {
            Err(e) => r == Err::<Poster, HandlerError>(e) && final(posters)@ == old(posters)@,
            Ok(_) => match poster_by_id(old(posters)@, poster_id) {
                None => r is Err && r->Err_0 is InvalidState && r->Err_0->InvalidState_0@ == no_poster_text(poster_id)
                    && final(posters)@ == old(posters)@,
                Some(p) => r is Ok && r->Ok_0@ == (PosterView { rules: rules_view(rules@), ..p })
                    && final(posters)@ == old(posters)@.update(index_of(old(posters)@, poster_id), r->Ok_0@),
            },
        },
{
    require_role(users, actor, Role::Owner)?;
    match posters.set_rules(poster_id, rules) {
        Ok(p) => Ok(p),
        Err(_) => Err(HandlerError::InvalidState(poster_message("poster ", poster_id, " does not exist"))),
    }
}

/// Change a poster's cadence (owner only).
pub fn set_interval(
    actor: TelegramId,
    poster_id: PosterId,
    interval: PostInterval,
    users: &InMemoryUserRepository,
    posters: &mut InMemoryPosterRepository,
) -> (r: Result<Poster, HandlerError>)
    ensures
        match role_check(users@, actor, Role::Owner) {
            Err(e) => r == Err::<Poster, HandlerError>(e) && final(posters)@ == old(posters)@,
            Ok(_) => match poster_by_id(old(posters)@, poster_id) {
                None => r is Err && r->Err_0 is InvalidState && r->Err_0->InvalidState_0@ == no_poster_text(poster_id)
                    && final(posters)@ == old(posters)@,
                Some(p) => r is Ok && r->Ok_0@ == (PosterView { interval: interval@, ..p })
                    && final(posters)@ == old(posters)@.update(index_of(old(posters)@, poster_id), r->Ok_0@),
            },
        },
{
    require_role(users, actor, Role::Owner)?;
    match posters.set_interval(poster_id, interval) {
        Ok(p) => Ok(p),
        Err(_) => Err(HandlerError::InvalidState(poster_message("poster ", poster_id, " does not exist"))),
    }
}

pub open spec fn no_chat_text(chat: i64) -> Seq<char> {
    "no poster is bound to chat "@ + signed_decimal(chat as int)
}

/// Mute or unmute announcement delivery for a chat (owner only); returns
/// how many bindings point at it.
pub fn set_announcement_mute(
    actor: TelegramId,
    chat_id: i64,
    muted: bool,
    users: &InMemoryUserRepository,
    configs: &mut InMemoryPublisherConfigRepository,
) -> (r: Result<u64, HandlerError>)
    ensures
        match role_check(users@, actor, Role::Owner) {
            Err(e) => r == Err::<u64, HandlerError>(e) && final(configs)@ == old(configs)@,
            Ok(_) => {
                &&& final(configs)@.len() == old(configs)@.len()
                &&& forall|i: int| 0 <= i < old(configs)@.len() ==> (#[trigger] final(configs)@[i]) == (if old(configs)@[i].chat_id == chat_id {
                    PublisherConfig { receive_announcements: !muted, ..old(configs)@[i] }
                } else {
                    old(configs)@[i]
                })
                &&& if count_chat(old(configs)@, chat_id) == 0 {
                    r is Err && r->Err_0 is InvalidState && r->Err_0->InvalidState_0@ == no_chat_text(chat_id)
                } else {
                    r == Ok::<u64, HandlerError>(count_chat(old(configs)@, chat_id) as u64)
                }
            },
        },
{
    require_role(users, actor, Role::Owner)?;
    let affected = configs.set_receive_announcements(chat_id, !muted);
    if affected == 0 {
        let mut msg = String::new();
        push_str(&mut msg, "no poster is bound to chat ");
        push_signed_decimal(&mut msg, chat_id);
        return Err(HandlerError::InvalidState(msg));
    }
    Ok(affected)
}

/// Delete a poster and its channel binding (owner only). The feed is
/// untouched.
pub fn delete_poster(
    actor: TelegramId,
    poster_id: PosterId,
    users: &InMemoryUserRepository,
    posters: &mut InMemoryPosterRepository,
    configs: &mut InMemoryPublisherConfigRepository,
) -> (r: Result<(), HandlerError>)
    ensures
        match role_check(users@, actor, Role::Owner) {
            Err(e) => r == Err::<(), HandlerError>(e) && final(posters)@ == old(posters)@
                && final(configs)@ == old(configs)@,
            Ok(_) => match poster_by_id(old(posters)@, poster_id) {
                None => r is Err && r->Err_0 is InvalidState && r->Err_0->InvalidState_0@ == no_poster_text(poster_id)
                    && final(posters)@ == old(posters)@ && final(configs)@ == old(configs)@,
                Some(_) => r is Ok
                    && final(posters)@ == old(posters)@.remove(index_of(old(posters)@, poster_id))
                    && config_for(final(configs)@, poster_id) is None
                    && forall|p: PosterId| p != poster_id ==> config_for(final(configs)@, p) == config_for(old(configs)@, p),
            },
        },
{
    require_role(users, actor, Role::Owner)?;
    if posters.find_by_id(poster_id).is_none() {
        return Err(HandlerError::InvalidState(poster_message("poster ", poster_id, " does not exist")));
    }
    configs.remove(poster_id);
    match posters.delete(poster_id) {
        Ok(_) => Ok(()),
        Err(_) => Err(HandlerError::RepositoryError),
    }
}

/// `/setchannel`.
#[derive(Debug)]
pub struct SetChannel {
    pub actor: TelegramId,
    pub poster_id: PosterId,
    pub chat_id: i64,
    pub token_path: String,
}

/// Bind an existing poster to a chat, replacing its previous binding
/// (owner only).
pub fn set_channel(
    cmd: SetChannel,
    users: &InMemoryUserRepository,
    posters: &InMemoryPosterRepository,
    configs: &mut InMemoryPublisherConfigRepository,
) -> (r: Result<(), HandlerError>)
    ensures
        match role_check(users@, cmd.actor, Role::Owner) {
            Err(e) => r == Err::<(), HandlerError>(e) && final(configs)@ == old(configs)@,
            Ok(_) => match poster_by_id(posters@, cmd.poster_id) {
                None => r is Err && r->Err_0 is InvalidState && r->Err_0->InvalidState_0@ == no_poster_text(cmd.poster_id)
                    && final(configs)@ == old(configs)@,
                Some(_) => r is Ok
                    && config_for(final(configs)@, cmd.poster_id) == Some(PublisherConfig {
                        poster_id: cmd.poster_id,
                        chat_id: cmd.chat_id,
                        token_path: cmd.token_path,
                        receive_announcements: true,
                    })
                    && forall|p: PosterId| p != cmd.poster_id ==> config_for(final(configs)@, p) == config_for(old(configs)@, p),
            },
        },
{
    require_role(users, cmd.actor, Role::Owner)?;
    let SetChannel { actor, poster_id, chat_id, token_path } = cmd;
    if posters.find_by_id(poster_id).is_none() {
        return Err(HandlerError::InvalidState(poster_message("poster ", poster_id, " does not exist")));
    }
    configs.upsert(PublisherConfig { poster_id, chat_id, token_path, receive_announcements: true });
    Ok(())
}

// --------------------------------------------------------------- start ----

/// `/start`: who made contact, and their display name at that moment.
#[derive(Debug)]
pub struct StartCommand {
    pub id: TelegramId,
    pub display_name: Option<String>,
}

/// The users after a `/start` from `id` showing `name`: a newcomer is
/// registered as `User`; a known user's cached display name is refreshed
/// when it changed.
pub open spec fn start_spec(users: Seq<User>, id: TelegramId, name: Option<String>) -> Seq<User> {
    match user_by_telegram(users, id) {
        Some(u) => if opt_chars(u.display_name) == opt_chars(name) {
            users
        } else {
            users.update(u.id.0 as int, User { display_name: name, ..u })
        },
        None => users.push(User {
            id: UserId(users.len() as u64),
            telegram_id: id,
            role: Role::User,
            added_by: None,
            display_name: name,
            is_banned: false,
            api_token: None,
        }),
    }
}

/// Register a new user as `User`, or refresh a known user's cached display
/// name. Idempotent.
pub fn handle_start(cmd: StartCommand, users: &mut InMemoryUserRepository) -> (r: Result<(), HandlerError>)
    ensures
        r is Ok,
        final(users)@ == start_spec(old(users)@, cmd.id, cmd.display_name),
{
    let StartCommand { id, display_name } = cmd;
    match users.find_by_telegram_id(id) {
        Some(existing) => {
            let same = match &existing.display_name {
                Some(a) => match &display_name {
                    Some(b) => crate::text::str_eq(a.as_str(), b.as_str()),
                    None => false,
                },
                None => display_name.is_none(),
            };
            assert(same == (opt_chars(existing.display_name) == opt_chars(display_name)));
            assert(existing.id.0 < users@.len() && users@[existing.id.0 as int] == existing);
            if !same {
                match users.set_display_name(existing.id, display_name) {
                    Ok(_) => {},
                    Err(_) => return Err(HandlerError::RepositoryError),
                }
            }
            Ok(())
        },
        None => {
            match users.create(id, Role::User, None, display_name) {
                Ok(_) => Ok(()),
                Err(_) => Err(HandlerError::RepositoryError),
            }
        },
    }
}


/// Re-`/start` is idempotent: a second `/start` with the same display name
/// changes nothing.
pub proof fn lemma_start_idempotent(users: Seq<User>, id: TelegramId, name: Option<String>)
    requires
        users_wf(users),
    ensures
        start_spec(start_spec(users, id, name), id, name) == start_spec(users, id, name),
{
    let once = start_spec(users, id, name);
    match user_by_telegram(users, id) {
        Some(u) => {
            let i = choose|i: int| 0 <= i < users.len() && users[i].telegram_id == id;
            assert(u == users[i]);
            if opt_chars(u.display_name) != opt_chars(name) {
                assert(once[i].telegram_id == id);
                assert(exists|j: int| 0 <= j < once.len() && once[j].telegram_id == id);
                let j = choose|j: int| 0 <= j < once.len() && once[j].telegram_id == id;
                if j != i {
                    assert(users[j].telegram_id == id);
                }
                assert(user_by_telegram(once, id) == Some(once[i]));
            }
        },
        None => {
            let n = users.len() as int;
            assert(once[n].telegram_id == id);
            assert(exists|j: int| 0 <= j < once.len() && once[j].telegram_id == id);
            let j = choose|j: int| 0 <= j < once.len() && once[j].telegram_id == id;
            if j < n {
                assert(users[j].telegram_id == id);
            }
            assert(user_by_telegram(once, id) == Some(once[n]));
        },
    }
}

// ---------------------------------------------------------------- more ----

/// What the bot needs to relay a "more like this" wish.
#[derive(Debug)]
pub struct MoreRequest {
    pub post: Post,
    pub reviewers: Vec<User>,
}

/// Who a relay goes to: moderators, then owners.
pub open spec fn reviewers_spec(users: Seq<User>) -> Seq<User> {
    users_with_role(users, Role::Moderator) + users_with_role(users, Role::Owner)
}

/// A viewer asks for more like `post_id`. The wish goes to moderators and
/// owners; a shadowbanned requester gets the same answer with nobody to
/// relay to.
pub fn request_more(
    requester: TelegramId,
    post_id: PostId,
    wish: &str,
    posts: &InMemoryPostRepository,
    users: &InMemoryUserRepository,
    shadow: &InMemoryShadowBanRepository,
) -> (r: Result<MoreRequest, HandlerError>)
    ensures
        match post_by_id(posts@, post_id) {
            None => r == Err::<MoreRequest, HandlerError>(HandlerError::PostNotFound(post_id)),
            Some(p) => r is Ok && r->Ok_0.post@ == p
                && r->Ok_0.reviewers@ == (if shadow@.contains(requester.0) { Seq::<User>::empty() } else { reviewers_spec(users@) }),
        },
{
    let post = match posts.find_by_id(post_id) {
        Some(p) => p,
        None => return Err(HandlerError::PostNotFound(post_id)),
    };
    if shadow.contains(requester) {
        return Ok(MoreRequest { post, reviewers: Vec::new() });
    }
    let reviewers = reviewers_of(users);
    Ok(MoreRequest { post, reviewers })
}

pub(crate) fn reviewers_of(users: &InMemoryUserRepository) -> (r: Vec<User>)
    ensures
        r@ == reviewers_spec(users@),
{
    let mut reviewers = users.list_by_role(Role::Moderator);
    let mut owners = users.list_by_role(Role::Owner);
    reviewers.append(&mut owners);
    reviewers
}

// ------------------------------------------------------------- reports ----

/// What the bot needs to react to a viewer report.
#[derive(Debug)]
pub enum ReportOutcome {
    /// First report from this viewer: notify these moderators and owners.
    New { post: Post, reviewers: Vec<User>, total_reports: u64, reason: Option<String> },
    /// This viewer already reported this post: acknowledge quietly.
    Duplicate,
}

/// The reason as the moderators see it: trimmed, and absent when blank.
pub open spec fn clean_reason(reason: Option<String>) -> Option<Seq<char>> {
    match reason {
        Some(r) => if trimmed(r@).len() > 0 { Some(trimmed(r@)) } else { None },
        None => None,
    }
}

pub open spec fn opt_chars(s: Option<String>) -> Option<Seq<char>> {
    match s {
        Some(x) => Some(x@),
        None => None,
    }
}

pub open spec fn already_reported(rs: Seq<Report>, post: PostId, reporter: TelegramId) -> bool {
    exists|i: int| 0 <= i < rs.len() && rs[i].post_id == post && rs[i].reporter == reporter
}

/// The reason trimmed, or `None` when nothing is left.
fn clean(reason: Option<String>) -> (r: Option<String>)
    ensures
        opt_chars(r) == clean_reason(reason),
{
    match reason {
        Some(text) => {
            let v = crate::text::chars_of(text.as_str());
            let (a, b) = crate::text::trim_bounds(&v);
            if a < b {
                Some(crate::text::string_of(&v, a, b))
            } else {
                None
            }
        },
        None => None,
    }
}

/// A viewer (registration not required) reports a post at `now`. The first
/// report from this viewer is stored and goes to the moderators and owners with the
/// running count; a repeat is acknowledged and nothing more.
pub fn report(
    reporter: TelegramId,
    post_id: PostId,
    reason: Option<String>,
    now: i64,
    posts: &InMemoryPostRepository,
    reports: &mut InMemoryReportRepository,
    users: &InMemoryUserRepository,
) -> (r: Result<ReportOutcome, HandlerError>)
    ensures
        match post_by_id(posts@, post_id) {
            None => r == Err::<ReportOutcome, HandlerError>(HandlerError::PostNotFound(post_id))
                && final(reports)@ == old(reports)@,
            Some(p) => if already_reported(old(reports)@, post_id, reporter) {
                r == Ok::<ReportOutcome, HandlerError>(ReportOutcome::Duplicate) && final(reports)@ == old(reports)@
            } else {
                &&& final(reports)@.len() == old(reports)@.len() + 1
                &&& final(reports)@.drop_last() == old(reports)@
                &&& final(reports)@.last().post_id == post_id
                &&& final(reports)@.last().reporter == reporter
                &&& final(reports)@.last().reported_at == now
                &&& opt_chars(final(reports)@.last().reason) == clean_reason(reason)
                &&& r is Ok && r->Ok_0 is New
                &&& r->Ok_0->New_post@ == p
                &&& r->Ok_0->New_reviewers@ == reviewers_spec(users@)
                &&& r->Ok_0->New_total_reports == count_for_spec(final(reports)@, post_id)
                &&& opt_chars(r->Ok_0->New_reason) == clean_reason(reason)
            },
        },
{
    let post = match posts.find_by_id(post_id) {
        Some(p) => p,
        None => return Err(HandlerError::PostNotFound(post_id)),
    };
    let reason = clean(reason);
    let copy = crate::text::clone_opt_string(&reason);
    let fresh = reports.add(Report { post_id, reporter, reported_at: now, reason: copy });
    if !fresh {
        return Ok(ReportOutcome::Duplicate);
    }
    let total_reports = reports.count_for(post_id);
    let reviewers = reviewers_of(users);
    Ok(ReportOutcome::New { post, reviewers, total_reports, reason })
}

/// One reported post with all its open reports, newest first.
#[derive(Debug)]
pub struct ReportedPost {
    pub post: Post,
    pub reports: Vec<Report>,
}

/// The posts named in `rs`, each once, in order of first appearance.
pub open spec fn distinct_posts(rs: Seq<Report>) -> Seq<PostId>
    decreases rs.len(),
{
    if rs.len() == 0 {
        seq![]
    } else {
        let prev = distinct_posts(rs.drop_last());
        if prev.contains(rs.last().post_id) { prev } else { prev.push(rs.last().post_id) }
    }
}

/// The overview rows for the posts `ids`: each still-present, not deleted
/// post with its reports from `all`.
pub open spec fn overview_rows(ids: Seq<PostId>, all: Seq<Report>, ps: Seq<PostView>) -> Seq<(PostView, Seq<Report>)>
    decreases ids.len(),
{
    if ids.len() == 0 {
        seq![]
    } else {
        let prev = overview_rows(ids.drop_last(), all, ps);
        match post_by_id(ps, ids.last()) {
            Some(p) => if p.status != PostStatus::Deleted {
                prev.push((p, reports_about(all, ids.last())))
            } else {
                prev
            },
            None => prev,
        }
    }
}

pub open spec fn row_views(rows: Seq<ReportedPost>) -> Seq<(PostView, Seq<Report>)> {
    rows.map_values(|r: ReportedPost| (r.post@, r.reports@))
}

/// Every not-deleted post with open reports, ordered by its most recent
/// report, with its reports newest first (moderators only).
pub fn overview(
    actor: TelegramId,
    users: &InMemoryUserRepository,
    posts: &InMemoryPostRepository,
    reports: &InMemoryReportRepository,
) -> (r: Result<Vec<ReportedPost>, HandlerError>)
    ensures
        match role_check(users@, actor, Role::Moderator) {
            Err(e) => r == Err::<Vec<ReportedPost>, HandlerError>(e),
            Ok(_) => r is Ok && row_views(r->Ok_0@) == overview_rows(
                distinct_posts(newest_first(reports@)),
                newest_first(reports@),
                posts@,
            ),
        },
{
    require_role(users, actor, Role::Moderator)?;
    let all = reports.list_all();
    let mut order: Vec<PostId> = Vec::new();
    let mut k: usize = 0;
    while k < all.len()
        invariant
            k <= all.len(),
            order@ == distinct_posts(all@.take(k as int)),
        decreases all.len() - k,
    {
        assert(all@.take(k + 1).drop_last() =~= all@.take(k as int));
        let id = all[k].post_id;
        let mut seen = false;
        let mut j: usize = 0;
        while j < order.len()
            invariant
                j <= order.len(),
                seen == exists|q: int| 0 <= q < j && order@[q] == id,
            decreases order.len() - j,
        {
            if order[j] == id {
                seen = true;
            }
            j = j + 1;
        }
        if !seen {
            order.push(id);
        }
        k = k + 1;
    }
    assert(all@.take(all.len() as int) =~= all@);
    let mut out: Vec<ReportedPost> = Vec::new();
    let mut i: usize = 0;
    while i < order.len()
        invariant
            i <= order.len(),
            row_views(out@) == overview_rows(order@.take(i as int), all@, posts@),
        decreases order.len() - i,
    {
        assert(order@.take(i + 1).drop_last() =~= order@.take(i as int));
        let id = order[i];
        match posts.find_by_id(id) {
            Some(post) => {
                if post.status != PostStatus::Deleted {
                    let mine = reports_of(&all, id);
                    let ghost before = out@;
                    out.push(ReportedPost { post, reports: mine });
                    assert(row_views(out@) =~= row_views(before).push((out@.last().post@, out@.last().reports@)));
                }
            },
            None => {},
        }
        i = i + 1;
    }
    assert(order@.take(order.len() as int) =~= order@);
    Ok(out)
}

/// The reports of `all` about `post`, in order.
fn reports_of(all: &Vec<Report>, post: PostId) -> (r: Vec<Report>)
    ensures
        r@ == reports_about(all@, post),
{
    let mut r: Vec<Report> = Vec::new();
    let mut k: usize = 0;
    while k < all.len()
        invariant
            k <= all.len(),
            r@ == reports_about(all@.take(k as int), post),
        decreases all.len() - k,
    {
        assert(all@.take(k + 1).drop_last() =~= all@.take(k as int));
        if all[k].post_id == post {
            r.push(crate::policy::copy_report(&all[k]));
        }
        k = k + 1;
    }
    assert(all@.take(all.len() as int) =~= all@);
    r
}

/// Moderator takedown at `now`: soft-delete the post, record who did it,
/// and hand back every delivery so the bot can delete the messages.
pub fn take_down(
    actor: TelegramId,
    post_id: PostId,
    now: i64,
    users: &InMemoryUserRepository,
    posts: &mut InMemoryPostRepository,
    publications: &InMemoryPublicationRepository,
) -> (r: Result<Vec<Publication>, HandlerError>)
    ensures
        match role_check(users@, actor, Role::Moderator) {
            Err(e) => r == Err::<Vec<Publication>, HandlerError>(e) && final(posts)@ == old(posts)@,
            Ok(m) => match post_by_id(old(posts)@, post_id) {
                None => r == Err::<Vec<Publication>, HandlerError>(HandlerError::PostNotFound(post_id))
                    && final(posts)@ == old(posts)@,
                Some(p) => r is Ok && r->Ok_0@ == publications_where(publications@, for_post(post_id))
                    && final(posts)@ == old(posts)@.update(post_id.0 as int, PostView {
                        status: PostStatus::Deleted,
                        moderated_by: Some(m.id),
                        moderated_at: Some(now),
                        ..p
                    }),
            },
        },
{
    let moderator = require_role(users, actor, Role::Moderator)?;
    if posts.find_by_id(post_id).is_none() {
        return Err(HandlerError::PostNotFound(post_id));
    }
    match posts.remove(post_id) {
        Ok(_) => {},
        Err(_) => return Err(HandlerError::RepositoryError),
    }
    match posts.record_moderation(post_id, moderator.id, now) {
        Ok(_) => {},
        Err(_) => return Err(HandlerError::RepositoryError),
    }
    Ok(publications.list_for(post_id))
}

/// Moderator dismissal: clear the post's reports so a fresh wave notifies
/// again.
pub fn dismiss(
    actor: TelegramId,
    post_id: PostId,
    users: &InMemoryUserRepository,
    reports: &mut InMemoryReportRepository,
) -> (r: Result<(), HandlerError>)
    ensures
        match role_check(users@, actor, Role::Moderator) {
            Err(e) => r == Err::<(), HandlerError>(e) && final(reports)@ == old(reports)@,
            Ok(_) => r is Ok && final(reports)@ == reports_not_about(old(reports)@, post_id),
        },
{
    require_role(users, actor, Role::Moderator)?;
    reports.clear_for(post_id);
    Ok(())
}

// ------------------------------------------------------------ replies ----

/// A handler error as the person who caused it reads it: authorization
/// failures all read the same.
pub open spec fn describe_spec(e: HandlerError) -> Seq<char> {
    match e {
        HandlerError::NotAuthorized(_) | HandlerError::UnknownActor => "You are not allowed to do that."@,
        other => handler_error_text(other),
    }
}

pub fn describe(e: HandlerError) -> (s: String)
    ensures
        s@ == describe_spec(e),
{
    match e {
        HandlerError::NotAuthorized(_) | HandlerError::UnknownActor => "You are not allowed to do that.".to_owned(),
        other => other.to_string(),
    }
}

// --------------------------------------------------------- tag policy ----

/// A moderator's change to the global tag policy.
#[derive(Debug, Clone, Copy, PartialEq, Eq, Structural)]
pub enum TagPolicyAction {
    Forbid,
    Unforbid,
    Require,
    Unrequire,
    Spoiler,
    Unspoiler,
}

/// The tag a policy command names and, for a forbid, its optional reason:
/// one tag, except that a forbid may carry trailing words as its reason.
pub open spec fn policy_arg(arg: Seq<char>, forbid: bool) -> Option<(Seq<char>, Option<Seq<char>>)> {
    let t = trimmed(arg);
    let k = next_ws(t, 0, t.len() as int);
    if k < t.len() {
        if forbid && k > 0 {
            let r = trimmed(t.subrange(k + 1, t.len() as int));
            Some((t.take(k), if r.len() == 0 { None } else { Some(r) }))
        } else {
            None
        }
    } else if t.len() == 0 {
        None
    } else {
        Some((t, None))
    }
}

fn parse_policy_arg(arg: &str, forbid: bool) -> (r: Option<(String, Option<String>)>)
    ensures
        match r {
            Some((tag, reason)) => policy_arg(arg@, forbid) == Some((tag@, reason_view(reason))),
            None => policy_arg(arg@, forbid) is None,
        },
{
    let v = chars_of(arg);
    let (a, b) = trim_bounds(&v);
    let t = sub_vec(&v, a, b);
    let k = next_whitespace(&t, 0, t.len());
    if k < t.len() {
        if !forbid || k == 0 {
            return None;
        }
        let tag = string_of(&t, 0, k);
        let rest = sub_vec(&t, k + 1, t.len());
        let (ra, rb) = trim_bounds(&rest);
        let reason = if ra == rb { None } else { Some(string_of(&rest, ra, rb)) };
        assert(t@.take(k as int) =~= t@.subrange(0, k as int));
        Some((tag, reason))
    } else if t.len() == 0 {
        None
    } else {
        let tag = string_of(&t, 0, t.len());
        assert(t@.subrange(0, t@.len() as int) =~= t@);
        Some((tag, None))
    }
}

/// The global tag policy after `action` on `tag`: forbidden tags with their
/// reasons, required tags, spoiler tags.
pub open spec fn policy_after(
    action: TagPolicyAction,
    tag: Seq<char>,
    reason: Option<Seq<char>>,
    forbidden: Map<Seq<char>, Option<Seq<char>>>,
    required: Set<Seq<char>>,
    spoilers: Set<Seq<char>>,
) -> (Map<Seq<char>, Option<Seq<char>>>, Set<Seq<char>>, Set<Seq<char>>) {
    match action {
        TagPolicyAction::Forbid => (forbidden.insert(tag, reason), required, spoilers),
        TagPolicyAction::Unforbid => (forbidden.remove(tag), required, spoilers),
        TagPolicyAction::Require => (forbidden, required.insert(tag), spoilers),
        TagPolicyAction::Unrequire => (forbidden, required.remove(tag), spoilers),
        TagPolicyAction::Spoiler => (forbidden, required, spoilers.insert(tag)),
        TagPolicyAction::Unspoiler => (forbidden, required, spoilers.remove(tag)),
    }
}

/// `/forbidtag`, `/unforbidtag`, `/requiretag`, `/unrequiretag`,
/// `/spoilertag`, `/unspoilertag` (moderators only): apply the change and
/// say so.
pub fn tag_policy(
    actor: TelegramId,
    arg: &str,
    action: TagPolicyAction,
    users: &InMemoryUserRepository,
    forbidden: &mut InMemoryForbiddenTagRepository,
    required: &mut InMemoryRequiredTagRepository,
    spoilers: &mut InMemorySpoilerTagRepository,
) -> (reply: String)
    ensures
        match role_check(users@, actor, Role::Moderator) {
            Err(e) => reply@ == describe_spec(e)
                && (final(forbidden)@, final(required)@, final(spoilers)@) == (old(forbidden)@, old(required)@, old(spoilers)@),
            Ok(_) => match policy_arg(arg@, action == TagPolicyAction::Forbid) {
                None => reply@ == "Give exactly one tag."@
                    && (final(forbidden)@, final(required)@, final(spoilers)@) == (old(forbidden)@, old(required)@, old(spoilers)@),
                Some((tag, reason)) => reply@ == "Tag policy updated: "@ + tag + "."@
                    && (final(forbidden)@, final(required)@, final(spoilers)@)
                        == policy_after(action, tag, reason, old(forbidden)@, old(required)@, old(spoilers)@),
            },
        },
{
    match require_role(users, actor, Role::Moderator) {
        Err(e) => return describe(e),
        Ok(_) => {},
    }
    let (tag, reason) = match parse_policy_arg(arg, action == TagPolicyAction::Forbid) {
        Some(x) => x,
        None => return "Give exactly one tag.".to_owned(),
    };
    match action {
        TagPolicyAction::Forbid => forbidden.add(tag.as_str(), reason),
        TagPolicyAction::Unforbid => forbidden.remove(tag.as_str()),
        TagPolicyAction::Require => required.add(tag.as_str()),
        TagPolicyAction::Unrequire => required.remove(tag.as_str()),
        TagPolicyAction::Spoiler => spoilers.add(tag.as_str()),
        TagPolicyAction::Unspoiler => spoilers.remove(tag.as_str()),
    }
    let mut reply = String::new();
    push_str(&mut reply, "Tag policy updated: ");
    push_str(&mut reply, tag.as_str());
    push_str(&mut reply, ".");
    reply
}

// ------------------------------------------------------------ postinfo ----

/// Everything `/postinfo` shows about a post.
#[derive(Debug)]
pub struct PostInfo {
    pub post: Post,
    pub submitter: Option<User>,
    pub moderator: Option<User>,
    pub report_count: u64,
    /// Every delivery of the post, in recording order.
    pub publications: Vec<Publication>,
}

pub open spec fn opt_user(users: Seq<User>, id: Option<UserId>) -> Option<User> {
    match id {
        Some(u) => user_by_id(users, u),
        None => None,
    }
}

/// A post's audit record (moderators only): the post, who submitted and
/// moderated it, how often it was reported, where it went out.
pub fn post_info(
    actor: TelegramId,
    post_id: PostId,
    users: &InMemoryUserRepository,
    posts: &InMemoryPostRepository,
    publications: &InMemoryPublicationRepository,
    reports: &InMemoryReportRepository,
) -> (r: Result<PostInfo, HandlerError>)
    ensures
        match role_check(users@, actor, Role::Moderator) {
            Err(e) => r == Err::<PostInfo, HandlerError>(e),
            Ok(_) => match post_by_id(posts@, post_id) {
                None => r == Err::<PostInfo, HandlerError>(HandlerError::PostNotFound(post_id)),
                Some(p) => r is Ok && {
                    let info = r->Ok_0;
                    &&& info.post@ == p
                    &&& info.submitter == opt_user(users@, p.submitted_by)
                    &&& info.moderator == opt_user(users@, p.moderated_by)
                    &&& info.report_count == count_for_spec(reports@, post_id)
                    &&& info.publications@ == publications_where(publications@, crate::publisher::for_post(post_id))
                },
            },
        },
{
    require_role(users, actor, Role::Moderator)?;
    let post = match posts.find_by_id(post_id) {
        Some(p) => p,
        None => return Err(HandlerError::PostNotFound(post_id)),
    };
    let submitter = match post.submitted_by {
        Some(u) => users.find_by_id(u),
        None => None,
    };
    let moderator = match post.moderated_by {
        Some(u) => users.find_by_id(u),
        None => None,
    };
    let report_count = reports.count_for(post_id);
    let publications = publications.list_for(post_id);
    Ok(PostInfo { post, submitter, moderator, report_count, publications })
}

/// The global tag lists as `/listtags` shows them.
pub open spec fn tag_lists_text(forbidden: Seq<Seq<char>>, required: Seq<Seq<char>>) -> Seq<char> {
    "FORBIDDEN: "@ + join(forbidden, ", "@) + "\nREQUIRED: "@ + join(required, ", "@)
}

/// `/listtags` (moderators only): the globally forbidden tags in tag order,
/// then the required ones.
pub fn list_tags(
    actor: TelegramId,
    users: &InMemoryUserRepository,
    forbidden: &InMemoryForbiddenTagRepository,
    required: &InMemoryRequiredTagRepository,
) -> (reply: String)
    ensures
        match role_check(users@, actor, Role::Moderator) {
            Err(e) => reply@ == describe_spec(e),
            Ok(_) => exists|fs: Seq<Seq<char>>, rs: Seq<Seq<char>>|
                strictly_sorted(fs) && fs.to_set() == forbidden@.dom() && rs.to_set() == required@
                    && reply@ == #[trigger] tag_lists_text(fs, rs),
        },
{
    match require_role(users, actor, Role::Moderator) {
        Err(e) => return describe(e),
        Ok(_) => {},
    }
    let fs = forbidden.list_all();
    let rs = required.list_all();
    let mut reply = String::new();
    push_str(&mut reply, "FORBIDDEN: ");
    let f = join_with(&fs, ", ");
    push_str(&mut reply, f.as_str());
    push_str(&mut reply, "\nREQUIRED: ");
    let r = join_with(&rs, ", ");
    push_str(&mut reply, r.as_str());
    assert(reply@ =~= tag_lists_text(views(fs@), views(rs@)));
    reply
}

// ------------------------------------------------------------- summary ----

pub open spec fn rule_line(i: int, r: RuleV) -> Seq<char> {
    "  "@ + decimal((i + 1) as nat) + ". ["@ + terms_text(r.0) + "] → ["@ + terms_text(r.1) + "]"@
}

/// A poster as the bot describes it: headline, cadence, destination,
/// subscription, exclusions and rules.
pub open spec fn summary_lines(p: PosterView, config: Option<PublisherConfig>, headline: Seq<char>) -> Seq<Seq<char>> {
    seq![
        if headline.len() == 0 {
            "Poster #"@ + decimal(p.id.0 as nat)
        } else {
            "Poster #"@ + decimal(p.id.0 as nat) + " — "@ + headline
        },
        "⏱ Interval: every "@ + decimal(p.interval as nat) + " min"@,
        match config {
            Some(c) => if c.receive_announcements {
                "📍 Posts to: chat "@ + signed_decimal(c.chat_id as int)
            } else {
                "📍 Posts to: chat "@ + signed_decimal(c.chat_id as int) + " (announcements muted)"@
            },
            None => "📍 Posts to: nowhere — bind with /setchannel"@,
        },
        if p.subscribed.len() == 0 {
            "🏷 Tags: anything"@
        } else {
            "🏷 Tags: "@ + join(term_texts(p.subscribed), ", "@)
        },
    ] + (if p.forbidden.len() == 0 {
        Seq::<Seq<char>>::empty()
    } else {
        seq!["🚫 Never: "@ + join(p.forbidden, ", "@)]
    }) + (if p.rules.len() == 0 {
        Seq::<Seq<char>>::empty()
    } else {
        seq!["📐 Rules:"@] + Seq::new(p.rules.len(), |i: int| rule_line(i, p.rules[i]))
    })
}

fn summary_line_list(poster: &Poster, configs: &InMemoryPublisherConfigRepository, headline: &str) -> (lines: Vec<String>)
    ensures
        views(lines@) == summary_lines(poster@, config_for(configs@, poster.id), headline@),
{
    let ghost want = summary_lines(poster@, config_for(configs@, poster.id), headline@);
    let mut lines: Vec<String> = Vec::new();
    let mut s = String::new();
    push_str(&mut s, "Poster #");
    push_decimal(&mut s, poster.id.0);
    if chars_of(headline).len() > 0 {
        push_str(&mut s, " — ");
        push_str(&mut s, headline);
    }
    lines.push(s);

    let mut s = String::new();
    push_str(&mut s, "⏱ Interval: every ");
    push_decimal(&mut s, poster.time_interval.minutes() as u64);
    push_str(&mut s, " min");
    lines.push(s);

    let mut s = String::new();
    match configs.find_by_poster(poster.id) {
        Some(c) => {
            push_str(&mut s, "📍 Posts to: chat ");
            push_signed_decimal(&mut s, c.chat_id);
            if !c.receive_announcements {
                push_str(&mut s, " (announcements muted)");
            }
        },
        None => push_str(&mut s, "📍 Posts to: nowhere — bind with /setchannel"),
    }
    lines.push(s);

    let mut s = String::new();
    if poster.subscribed_tags.len() == 0 {
        push_str(&mut s, "🏷 Tags: anything");
    } else {
        push_str(&mut s, "🏷 Tags: ");
        let mut terms: Vec<String> = Vec::new();
        let mut k: usize = 0;
        while k < poster.subscribed_tags.len()
            invariant
                k <= poster.subscribed_tags.len(),
                views(terms@) == term_texts(terms_view(poster.subscribed_tags@)).take(k as int),
            decreases poster.subscribed_tags.len() - k,
        {
            let ghost tv = terms_view(poster.subscribed_tags@);
            let ghost before = views(terms@);
            terms.push(poster.subscribed_tags[k].to_string());
            assert(tv[k as int] == poster.subscribed_tags@[k as int]@);
            assert(term_texts(tv)[k as int] == term_text(tv[k as int]));
            assert(views(terms@) =~= before.push(term_texts(tv)[k as int]));
            assert(term_texts(tv).take(k + 1) =~= term_texts(tv).take(k as int).push(term_texts(tv)[k as int]));
            k = k + 1;
        }
        assert(views(terms@) =~= term_texts(terms_view(poster.subscribed_tags@)));
        let joined = join_with(&terms, ", ");
        push_str(&mut s, joined.as_str());
    }
    lines.push(s);
    assert(views(lines@) =~= want.take(4));

    if poster.forbidden_tags.len() > 0 {
        let mut s = String::new();
        push_str(&mut s, "🚫 Never: ");
        let joined = join_with(&poster.forbidden_tags, ", ");
        push_str(&mut s, joined.as_str());
        lines.push(s);
    }
    let ghost fixed: int = views(lines@).len() as int;
    assert(views(lines@) =~= want.take(fixed));
    if poster.rules.len() > 0 {
        lines.push("📐 Rules:".to_owned());
        assert(views(lines@) =~= want.take(fixed + 1));
        let mut k: usize = 0;
        while k < poster.rules.len()
            invariant
                k <= poster.rules.len(),
                fixed + 1 + poster.rules@.len() == want.len(),
                want == summary_lines(poster@, config_for(configs@, poster.id), headline@),
                views(lines@) == want.take(fixed + 1 + k),
                forall|i: int| 0 <= i < poster.rules@.len() ==> want[fixed + 1 + i] == rule_line(i, #[trigger] poster.rules@[i]@),
            decreases poster.rules.len() - k,
        {
            let r = &poster.rules[k];
            let mut s = String::new();
            push_str(&mut s, "  ");
            push_decimal(&mut s, (k + 1) as u64);
            push_str(&mut s, ". [");
            let left = terms_to_string(&r.if_all);
            push_str(&mut s, left.as_str());
            push_str(&mut s, "] → [");
            let right = terms_to_string(&r.then_all);
            push_str(&mut s, right.as_str());
            push_str(&mut s, "]");
            assert(s@ =~= rule_line(k as int, poster.rules@[k as int]@));
            let ghost before = views(lines@);
            lines.push(s);
            assert(want.take(fixed + 1 + k + 1) =~= want.take(fixed + 1 + k).push(want[fixed + 1 + k]));
            assert(views(lines@) =~= before.push(s@));
            k = k + 1;
        }
    }
    assert(views(lines@) =~= want);
    lines
}

/// A poster as the bot describes it, `headline` after its number when
/// given.
pub fn poster_summary(poster: &Poster, configs: &InMemoryPublisherConfigRepository, headline: &str) -> (s: String)
    ensures
        s@ == join(summary_lines(poster@, config_for(configs@, poster.id), headline@), "\n"@),
{
    let lines = summary_line_list(poster, configs, headline);
    join_with(&lines, "\n")
}


// --------------------------------------------------------- chat lookup ----

/// The ids of the posters, in list order, whose binding delivers to `chat`.
pub open spec fn posters_in_chat_spec(ps: Seq<PosterView>, cs: Seq<PublisherConfig>, chat: i64) -> Seq<PosterId>
    decreases ps.len(),
{
    if ps.len() == 0 {
        Seq::empty()
    } else {
        let rest = posters_in_chat_spec(ps.drop_last(), cs, chat);
        if config_for(cs, ps.last().id) matches Some(c) && c.chat_id == chat {
            rest.push(ps.last().id)
        } else {
            rest
        }
    }
}

/// Every poster bound to `chat`, in list order.
pub fn posters_in_chat(
    posters: &InMemoryPosterRepository,
    configs: &InMemoryPublisherConfigRepository,
    chat: i64,
) -> (r: Vec<PosterId>)
    ensures
        r@ == posters_in_chat_spec(posters@, configs@, chat),
{
    let all = posters.list_all();
    let ghost ps = poster_views(all@);
    let mut out: Vec<PosterId> = Vec::new();
    let mut i: usize = 0;
    while i < all.len()
        invariant
            i <= all.len() == ps.len(),
            ps == posters@,
            ps == poster_views(all@),
            out@ == posters_in_chat_spec(ps.take(i as int), configs@, chat),
        decreases all.len() - i,
    {
        assert(ps.take(i + 1).drop_last() =~= ps.take(i as int));
        assert(ps.take(i + 1).last() == all@[i as int]@);
        let id = all[i].id;
        match configs.find_by_poster(id) {
            Some(c) => {
                if c.chat_id == chat {
                    out.push(id);
                }
            },
            None => {},
        }
        i += 1;
    }
    assert(ps.take(all.len() as int) =~= ps);
    out
}


// ---------------------------------------------------------- scoreboards ----

/// What `/scoreboards` asks of the bot.
#[derive(Debug)]
pub enum ScoreboardsOrder {
    /// Post a round now.
    RunNow,
    /// Answer with this text.
    Reply(String),
}

fn reply_of(t: &str) -> (r: ScoreboardsOrder)
    ensures
        r matches ScoreboardsOrder::Reply(x) && x@ == t@,
{
    let mut s = String::new();
    push_str(&mut s, t);
    ScoreboardsOrder::Reply(s)
}

pub open spec fn scoreboards_usage() -> Seq<char> {
    "Usage: /scoreboards <hours|now|off>"@
}

pub open spec fn cadence_text(hours: u64) -> Seq<char> {
    "Scoreboards every "@ + crate::text::decimal(hours as nat)
        + "h. Next round fires within a minute of becoming due (first one immediately if none was ever posted)."@
}

/// `/scoreboards <hours|now|off>` (owner only; the word trimmed and
/// lowercased): `now` posts a round at once; `off` or `0` stops the
/// recurring rounds; a positive number of hours sets their cadence;
/// anything else gets the usage.
pub fn scoreboards_command(
    actor: TelegramId,
    arg: &str,
    users: &InMemoryUserRepository,
    settings: &mut ScoreboardSettings,
) -> (r: ScoreboardsOrder)
    ensures
        match role_check(users@, actor, Role::Owner) {
            Err(e) => r matches ScoreboardsOrder::Reply(t) && t@ == describe_spec(e) && *final(settings) == *old(settings),
            Ok(_) => {
                let w = lower(trimmed(arg@));
                if w == "now"@ {
                    r is RunNow && *final(settings) == *old(settings)
                } else if w == "off"@ || w == "0"@ {
                    r matches ScoreboardsOrder::Reply(t) && t@ == "Recurring scoreboards disabled."@
                        && *final(settings) == (ScoreboardSettings { interval_hours: 0, ..*old(settings) })
                } else if parse_u64_spec(w) is Some && 0 < parse_u64_spec(w)->0 <= u32::MAX {
                    r matches ScoreboardsOrder::Reply(t) && t@ == cadence_text(parse_u64_spec(w)->0)
                        && *final(settings) == (ScoreboardSettings { interval_hours: parse_u64_spec(w)->0 as u32, ..*old(settings) })
                } else {
                    r matches ScoreboardsOrder::Reply(t) && t@ == scoreboards_usage() && *final(settings) == *old(settings)
                }
            },
        },
{
    if let Err(e) = require_role(users, actor, Role::Owner) {
        return ScoreboardsOrder::Reply(describe(e));
    }
    let v = chars_of(arg);
    let (a, b) = trim_bounds(&v);
    let t = string_of(&v, a, b);
    let lw = lowercase(t.as_str());
    let w = string_of(&lw, 0, lw.len());
    assert(lw@.subrange(0, lw@.len() as int) =~= lw@);
    if str_eq(w.as_str(), "now") {
        ScoreboardsOrder::RunNow
    } else if str_eq(w.as_str(), "off") || str_eq(w.as_str(), "0") {
        settings.interval_hours = 0;
        reply_of("Recurring scoreboards disabled.")
    } else {
        match parse_u64(w.as_str()) {
            Some(h) => if 0 < h && h <= 0xffff_ffff {
                settings.interval_hours = h as u32;
                let mut s = String::new();
                push_str(&mut s, "Scoreboards every ");
                push_decimal(&mut s, h);
                push_str(&mut s, "h. Next round fires within a minute of becoming due (first one immediately if none was ever posted).");
                ScoreboardsOrder::Reply(s)
            } else {
                reply_of("Usage: /scoreboards <hours|now|off>")
            },
            None => reply_of("Usage: /scoreboards <hours|now|off>"),
        }
    }
}

} // verus!
