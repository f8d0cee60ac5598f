use yiffy_corner::handler::{
    after_post, delete_poster, dismiss, handle_start, new_poster, overview, poster_queue, report, request_more,
    set_channel, set_tags, take_down, describe, list_tags, poster_summary, tag_policy, HandlerError, TagPolicyAction, NewPoster, ReportOutcome, SetChannel, SetTags, StartCommand,
};
use yiffy_corner::policy::{
    InMemoryForbiddenTagRepository, InMemoryReportRepository, InMemoryRequiredTagRepository, InMemoryShadowBanRepository,
    InMemorySpoilerTagRepository,
};
use yiffy_corner::post::{InMemoryPostRepository, Post, PostId, PostStatus};
use yiffy_corner::poster::{InMemoryPosterRepository, PostInterval, PosterId};
use yiffy_corner::publisher::{InMemoryPublicationRepository, InMemoryPublisherConfigRepository, Publication};
use yiffy_corner::tag_rule::{TagLiteral, TagTerm};
use yiffy_corner::user::{InMemoryUserRepository, Role, TelegramId, UserId};

const NOW: i64 = 1_700_000_000_000;

fn s(x: &str) -> String {
    x.to_string()
}

fn has(t: &str) -> TagTerm {
    TagTerm(vec![TagLiteral::Has(s(t))])
}

fn users_with(roles: &[(i64, Role)]) -> InMemoryUserRepository {
    let mut users = InMemoryUserRepository::new();
    for (id, role) in roles {
        users.create(TelegramId(*id), *role, None, None).unwrap();
    }
    users
}

fn accepted_post(posts: &mut InMemoryPostRepository, n: u64, tags: Vec<String>) -> Post {
    posts
        .create(format!("https://e621.net/posts/{n}"), tags, vec![], None, NOW, PostStatus::Accepted)
        .unwrap()
}

fn feed_post(posts: &mut InMemoryPostRepository, n: u64) -> Post {
    let p = accepted_post(posts, n, vec![]);
    posts.accept_into_feed(p.id).unwrap()
}

// ----------------------------------------------------------------- feed ----

#[test]
fn slice_lists_everything_after_the_anchor_in_order() {
    let users = users_with(&[(1, Role::Moderator), (2, Role::User)]);
    let mut posts = InMemoryPostRepository::new();
    let first = feed_post(&mut posts, 1);
    let second = feed_post(&mut posts, 2);
    let third = feed_post(&mut posts, 3);

    let slice = after_post(TelegramId(1), first.id, &users, &posts).unwrap();
    assert_eq!(slice.anchor.id, first.id);
    assert_eq!(slice.feed_end, third.feed_position.unwrap());
    assert_eq!(slice.entries.iter().map(|p| p.id).collect::<Vec<_>>(), vec![second.id, third.id]);

    let tail = after_post(TelegramId(1), third.id, &users, &posts).unwrap();
    assert!(tail.entries.is_empty());
}

#[test]
fn poster_queue_attaches_the_posters_verdicts() {
    let users = users_with(&[(1, Role::Moderator), (2, Role::User)]);
    let mut posts = InMemoryPostRepository::new();
    let anchor = feed_post(&mut posts, 1);
    let wolf = accepted_post(&mut posts, 2, vec![s("wolf")]);
    posts.accept_into_feed(wolf.id).unwrap();
    feed_post(&mut posts, 3);

    let mut posters = InMemoryPosterRepository::new();
    let poster = posters
        .create(vec![has("wolf")], vec![], PostInterval::new(30).unwrap(), anchor.feed_position.unwrap())
        .unwrap();

    let queue = poster_queue(TelegramId(1), poster.id, &users, &posters, &posts).unwrap();
    assert_eq!(queue.entries.len(), 2);
    assert!(queue.entries[0].refusal.is_none());
    assert_eq!(queue.entries[1].refusal.as_deref(), Some("missing `wolf`"));

    match poster_queue(TelegramId(1), PosterId(99), &users, &posters, &posts) {
        Err(HandlerError::InvalidState(msg)) => assert_eq!(msg, "no poster #99"),
        other => panic!("unexpected {:?}", other.map(|q| q.entries.len())),
    }
}

#[test]
fn positionless_post_is_rejected() {
    let users = users_with(&[(1, Role::Moderator), (2, Role::User)]);
    let mut posts = InMemoryPostRepository::new();
    let outside = accepted_post(&mut posts, 9, vec![]);
    match after_post(TelegramId(1), outside.id, &users, &posts) {
        Err(HandlerError::InvalidState(msg)) => {
            assert_eq!(msg, "post #0 has no feed position — it is not in the feed")
        }
        _ => panic!("expected InvalidState"),
    }
}

#[test]
fn unknown_post_and_plain_user_are_rejected() {
    let users = users_with(&[(1, Role::Moderator), (2, Role::User)]);
    let mut posts = InMemoryPostRepository::new();
    let anchor = feed_post(&mut posts, 1);
    assert!(matches!(
        after_post(TelegramId(1), PostId(777), &users, &posts),
        Err(HandlerError::PostNotFound(_))
    ));
    assert!(matches!(
        after_post(TelegramId(2), anchor.id, &users, &posts),
        Err(HandlerError::NotAuthorized(_))
    ));
    assert!(matches!(
        after_post(TelegramId(3), anchor.id, &users, &posts),
        Err(HandlerError::UnknownActor)
    ));
}

// ------------------------------------------------------- manage posters ----

fn new_poster_cmd(actor: i64) -> NewPoster {
    NewPoster {
        actor: TelegramId(actor),
        subscribed_tags: vec![has("wolf")],
        forbidden_tags: vec![s("gore")],
        interval: PostInterval::new(15).unwrap(),
        chat_id: -100555,
        token_path: s("config/vault/dev/token.txt"),
    }
}

fn owner_fixture() -> (InMemoryUserRepository, InMemoryPosterRepository, InMemoryPublisherConfigRepository) {
    (
        users_with(&[(1, Role::Owner), (2, Role::Moderator)]),
        InMemoryPosterRepository::new(),
        InMemoryPublisherConfigRepository::new(),
    )
}

#[test]
fn owner_creates_poster() {
    let (users, mut posters, mut configs) = owner_fixture();
    let poster = new_poster(new_poster_cmd(1), &users, &mut posters, &mut configs).unwrap();
    assert_eq!(poster.subscribed_tags, vec![has("wolf")]);
    assert_eq!(poster.cursor, 0);
    assert!(posters.find_by_id(poster.id).is_some());
    let config = configs.find_by_poster(poster.id).unwrap();
    assert_eq!(config.chat_id, -100555);
    assert!(config.receive_announcements);
}

#[test]
fn moderator_cannot_create_poster() {
    let (users, mut posters, mut configs) = owner_fixture();
    assert!(matches!(
        new_poster(new_poster_cmd(2), &users, &mut posters, &mut configs),
        Err(HandlerError::NotAuthorized(_))
    ));
    assert!(posters.list_all().is_empty());
}

#[test]
fn owner_replaces_poster_tags() {
    let (users, mut posters, mut configs) = owner_fixture();
    let poster = new_poster(new_poster_cmd(1), &users, &mut posters, &mut configs).unwrap();
    let updated = set_tags(
        SetTags { actor: TelegramId(1), poster_id: poster.id, subscribed_tags: vec![has("dragon")], forbidden_tags: vec![] },
        &users,
        &mut posters,
    )
    .unwrap();
    assert_eq!(updated.subscribed_tags, vec![has("dragon")]);
}

#[test]
fn moderator_cannot_replace_poster_tags() {
    let (users, mut posters, mut configs) = owner_fixture();
    let poster = new_poster(new_poster_cmd(1), &users, &mut posters, &mut configs).unwrap();
    assert!(matches!(
        set_tags(
            SetTags { actor: TelegramId(2), poster_id: poster.id, subscribed_tags: vec![], forbidden_tags: vec![] },
            &users,
            &mut posters,
        ),
        Err(HandlerError::NotAuthorized(_))
    ));
}

#[test]
fn set_channel_binds_existing_poster() {
    let (users, mut posters, mut configs) = owner_fixture();
    let poster = new_poster(new_poster_cmd(1), &users, &mut posters, &mut configs).unwrap();
    set_channel(
        SetChannel {
            actor: TelegramId(1),
            poster_id: poster.id,
            chat_id: -100123,
            token_path: s("config/vault/dev/posters/1/token.txt"),
        },
        &users,
        &posters,
        &mut configs,
    )
    .unwrap();
    assert_eq!(configs.find_by_poster(poster.id).unwrap().chat_id, -100123);
}

#[test]
fn owner_deletes_poster_and_binding() {
    let (users, mut posters, mut configs) = owner_fixture();
    let poster = new_poster(new_poster_cmd(1), &users, &mut posters, &mut configs).unwrap();
    delete_poster(TelegramId(1), poster.id, &users, &mut posters, &mut configs).unwrap();
    assert!(posters.find_by_id(poster.id).is_none());
    assert!(configs.find_by_poster(poster.id).is_none());
}

#[test]
fn moderator_cannot_delete_poster() {
    let (users, mut posters, mut configs) = owner_fixture();
    let poster = new_poster(new_poster_cmd(1), &users, &mut posters, &mut configs).unwrap();
    assert!(matches!(
        delete_poster(TelegramId(2), poster.id, &users, &mut posters, &mut configs),
        Err(HandlerError::NotAuthorized(_))
    ));
    assert!(posters.find_by_id(poster.id).is_some());
}

#[test]
fn deleting_unknown_poster_is_invalid_state() {
    let (users, mut posters, mut configs) = owner_fixture();
    match delete_poster(TelegramId(1), PosterId(99), &users, &mut posters, &mut configs) {
        Err(HandlerError::InvalidState(msg)) => assert_eq!(msg, "poster 99 does not exist"),
        _ => panic!("expected InvalidState"),
    }
}

#[test]
fn set_channel_rejects_unknown_poster() {
    let (users, posters, mut configs) = owner_fixture();
    assert!(matches!(
        set_channel(
            SetChannel { actor: TelegramId(1), poster_id: PosterId(999), chat_id: -100123, token_path: s("x") },
            &users,
            &posters,
            &mut configs,
        ),
        Err(HandlerError::InvalidState(_))
    ));
}

#[test]
fn start_registers_a_newcomer_once() {
    let mut users = InMemoryUserRepository::new();
    handle_start(StartCommand { id: TelegramId(5), display_name: Some(s("Cy")) }, &mut users).unwrap();
    let u = users.find_by_telegram_id(TelegramId(5)).unwrap();
    assert_eq!(u.role, Role::User);
    handle_start(StartCommand { id: TelegramId(5), display_name: Some(s("Cy")) }, &mut users).unwrap();
    assert_eq!(users.list_by_role(Role::User).len(), 1);
}

// ------------------------------------------------------------- requests ----

#[test]
fn relays_to_moderators_and_owners_and_checks_the_post() {
    let users = users_with(&[(1, Role::Moderator), (2, Role::Owner)]);
    let mut posts = InMemoryPostRepository::new();
    let mut shadow = InMemoryShadowBanRepository::new();
    let post = accepted_post(&mut posts, 1, vec![]);

    let relay = request_more(TelegramId(99), post.id, "more wolves", &posts, &users, &shadow).unwrap();
    assert_eq!(relay.post.id, post.id);
    assert_eq!(relay.reviewers.len(), 2);

    assert!(matches!(
        request_more(TelegramId(99), PostId(777), "?", &posts, &users, &shadow),
        Err(HandlerError::PostNotFound(_))
    ));

    // A shadowbanned requester hears the same, and nobody is told.
    shadow.set(TelegramId(99), TelegramId(1), NOW);
    let dropped = request_more(TelegramId(99), post.id, "more wolves", &posts, &users, &shadow).unwrap();
    assert_eq!(dropped.post.id, post.id);
    assert!(dropped.reviewers.is_empty());
}

// -------------------------------------------------------------- reports ----

struct Fixture {
    users: InMemoryUserRepository,
    posts: InMemoryPostRepository,
    reports: InMemoryReportRepository,
    publications: InMemoryPublicationRepository,
}

fn fixture() -> (Fixture, PostId) {
    let users = users_with(&[(1, Role::Moderator), (2, Role::User)]);
    let mut posts = InMemoryPostRepository::new();
    let post = accepted_post(&mut posts, 1, vec![]);
    (
        Fixture {
            users,
            posts,
            reports: InMemoryReportRepository::new(),
            publications: InMemoryPublicationRepository::new(),
        },
        post.id,
    )
}

#[test]
fn first_report_notifies_repeat_is_duplicate() {
    let (mut fx, post_id) = fixture();
    let outcome =
        report(TelegramId(99), post_id, Some(s("  untagged gore  ")), NOW, &fx.posts, &mut fx.reports, &fx.users)
            .unwrap();
    let ReportOutcome::New { reviewers, total_reports, reason, .. } = outcome else {
        panic!("expected New");
    };
    assert_eq!(reviewers.len(), 1);
    assert_eq!(total_reports, 1);
    assert_eq!(reason.as_deref(), Some("untagged gore"));

    let again =
        report(TelegramId(99), post_id, Some(s("still gore")), NOW, &fx.posts, &mut fx.reports, &fx.users).unwrap();
    assert!(matches!(again, ReportOutcome::Duplicate));
}

#[test]
fn blank_reason_reads_as_none() {
    let (mut fx, post_id) = fixture();
    let outcome = report(TelegramId(99), post_id, Some(s("   ")), NOW, &fx.posts, &mut fx.reports, &fx.users).unwrap();
    let ReportOutcome::New { reason, .. } = outcome else {
        panic!("expected New");
    };
    assert_eq!(reason, None);
}

#[test]
fn reporting_unknown_post_fails() {
    let (mut fx, _) = fixture();
    assert!(matches!(
        report(TelegramId(99), PostId(777), Some(s("untagged gore")), NOW, &fx.posts, &mut fx.reports, &fx.users),
        Err(HandlerError::PostNotFound(_))
    ));
}

#[test]
fn take_down_soft_deletes_and_returns_deliveries() {
    let (mut fx, post_id) = fixture();
    fx.publications.record(Publication { post_id, chat_id: -100, message_id: 7, published_at: NOW });
    let deliveries = take_down(TelegramId(1), post_id, NOW, &fx.users, &mut fx.posts, &fx.publications).unwrap();
    assert_eq!(deliveries.len(), 1);
    let stored = fx.posts.find_by_id(post_id).unwrap();
    assert_eq!(stored.status, PostStatus::Deleted);
    assert_eq!(stored.moderated_at, Some(NOW));
}

#[test]
fn plain_user_cannot_take_down_or_dismiss() {
    let (mut fx, post_id) = fixture();
    assert!(matches!(
        take_down(TelegramId(2), post_id, NOW, &fx.users, &mut fx.posts, &fx.publications),
        Err(HandlerError::NotAuthorized(_))
    ));
    assert!(matches!(
        dismiss(TelegramId(2), post_id, &fx.users, &mut fx.reports),
        Err(HandlerError::NotAuthorized(_))
    ));
}

#[test]
fn overview_groups_reports_and_drops_taken_down_posts() {
    let (mut fx, post_id) = fixture();
    let second = accepted_post(&mut fx.posts, 2, vec![]);
    for (reporter, post, why) in [(99, post_id, "gore"), (98, post_id, "untagged"), (99, second.id, "off-topic")] {
        report(TelegramId(reporter), post, Some(s(why)), NOW, &fx.posts, &mut fx.reports, &fx.users).unwrap();
    }
    let all = overview(TelegramId(1), &fx.users, &fx.posts, &fx.reports).unwrap();
    assert_eq!(all.len(), 2);
    let first = all.iter().find(|r| r.post.id == post_id).unwrap();
    assert_eq!(first.reports.len(), 2);

    take_down(TelegramId(1), second.id, NOW, &fx.users, &mut fx.posts, &fx.publications).unwrap();
    let all = overview(TelegramId(1), &fx.users, &fx.posts, &fx.reports).unwrap();
    assert_eq!(all.len(), 1);
    assert_eq!(all[0].post.id, post_id);

    assert!(matches!(
        overview(TelegramId(2), &fx.users, &fx.posts, &fx.reports),
        Err(HandlerError::NotAuthorized(_))
    ));
}

#[test]
fn dismiss_clears_so_fresh_reports_renotify() {
    let (mut fx, post_id) = fixture();
    report(TelegramId(99), post_id, Some(s("untagged gore")), NOW, &fx.posts, &mut fx.reports, &fx.users).unwrap();
    dismiss(TelegramId(1), post_id, &fx.users, &mut fx.reports).unwrap();
    let outcome =
        report(TelegramId(99), post_id, Some(s("untagged gore")), NOW, &fx.posts, &mut fx.reports, &fx.users).unwrap();
    assert!(matches!(outcome, ReportOutcome::New { .. }));
}

#[test]
fn handler_errors_read_as_their_messages() {
    assert_eq!(HandlerError::NotAuthorized(UserId(3)).to_string(), "Not Authorized: 3");
    assert_eq!(HandlerError::UnknownActor.to_string(), "Actor is not a registered user");
    assert_eq!(HandlerError::PostNotFound(PostId(12)).to_string(), "Post Not Found: 12");
    assert_eq!(
        HandlerError::DuplicateSubmission(PostId(4)).to_string(),
        "This source was already submitted (post 4)"
    );
    assert_eq!(HandlerError::InvalidState(s("no poster #9")).to_string(), "Invalid state: no poster #9");
    assert_eq!(HandlerError::UnknownUsername(s("fox")).to_string(), "Unknown Telegram username: @fox");
}

// ----------------------------------------------------------- tag policy ----

#[test]
fn moderators_change_the_tag_policy() {
    let users = users_with(&[(1, Role::Moderator), (2, Role::User)]);
    let mut forbidden = InMemoryForbiddenTagRepository::new();
    let mut required = InMemoryRequiredTagRepository::new();
    let mut spoilers = InMemorySpoilerTagRepository::new();

    let reply = tag_policy(TelegramId(1), " gore  too graphic ", TagPolicyAction::Forbid, &users, &mut forbidden, &mut required, &mut spoilers);
    assert_eq!(reply, "Tag policy updated: gore.");
    assert_eq!(forbidden.reason_for("gore"), Some(s("too graphic")));

    let reply = tag_policy(TelegramId(1), "scat", TagPolicyAction::Forbid, &users, &mut forbidden, &mut required, &mut spoilers);
    assert_eq!(reply, "Tag policy updated: scat.");
    assert!(forbidden.contains("scat"));
    assert_eq!(forbidden.reason_for("scat"), None);

    let reply = tag_policy(TelegramId(1), "wolf fox", TagPolicyAction::Require, &users, &mut forbidden, &mut required, &mut spoilers);
    assert_eq!(reply, "Give exactly one tag.");
    assert!(!required.contains("wolf"));
    let reply = tag_policy(TelegramId(1), "   ", TagPolicyAction::Spoiler, &users, &mut forbidden, &mut required, &mut spoilers);
    assert_eq!(reply, "Give exactly one tag.");

    tag_policy(TelegramId(1), "wolf", TagPolicyAction::Require, &users, &mut forbidden, &mut required, &mut spoilers);
    assert!(required.contains("wolf"));
    tag_policy(TelegramId(1), "vore", TagPolicyAction::Spoiler, &users, &mut forbidden, &mut required, &mut spoilers);
    assert!(spoilers.contains("vore"));
    tag_policy(TelegramId(1), "gore", TagPolicyAction::Unforbid, &users, &mut forbidden, &mut required, &mut spoilers);
    assert!(!forbidden.contains("gore"));
    tag_policy(TelegramId(1), "wolf", TagPolicyAction::Unrequire, &users, &mut forbidden, &mut required, &mut spoilers);
    assert!(!required.contains("wolf"));
    tag_policy(TelegramId(1), "vore", TagPolicyAction::Unspoiler, &users, &mut forbidden, &mut required, &mut spoilers);
    assert!(!spoilers.contains("vore"));

    let reply = tag_policy(TelegramId(2), "cute", TagPolicyAction::Forbid, &users, &mut forbidden, &mut required, &mut spoilers);
    assert_eq!(reply, "You are not allowed to do that.");
    assert!(!forbidden.contains("cute"));
}

#[test]
fn errors_read_the_same_for_every_authorization_failure() {
    assert_eq!(describe(HandlerError::NotAuthorized(UserId(3))), "You are not allowed to do that.");
    assert_eq!(describe(HandlerError::UnknownActor), "You are not allowed to do that.");
    assert_eq!(describe(HandlerError::PostNotFound(PostId(4))), "Post Not Found: 4");
}

#[test]
fn listtags_shows_both_lists() {
    let users = users_with(&[(1, Role::Moderator), (2, Role::User)]);
    let mut forbidden = InMemoryForbiddenTagRepository::new();
    let mut required = InMemoryRequiredTagRepository::new();
    forbidden.add("scat", None);
    forbidden.add("gore", Some(s("graphic")));
    required.add("solo");
    assert_eq!(list_tags(TelegramId(1), &users, &forbidden, &required), "FORBIDDEN: gore, scat\nREQUIRED: solo");
    assert_eq!(list_tags(TelegramId(2), &users, &forbidden, &required), "You are not allowed to do that.");
}

#[test]
fn a_poster_summary_lists_everything() {
    let mut posters = InMemoryPosterRepository::new();
    let rules = yiffy_corner::tag_rule::TagRule::parse_all("[wolf]->[solo]").unwrap();
    let p = posters.create(vec![has("wolf"), has("fox")], vec![s("gore"), s("scat")], PostInterval::new(15).unwrap(), 0).unwrap();
    let p = posters.set_rules(p.id, rules).unwrap();
    let mut configs = InMemoryPublisherConfigRepository::new();
    assert_eq!(
        poster_summary(&p, &configs, ""),
        "Poster #0\n⏱ Interval: every 15 min\n📍 Posts to: nowhere — bind with /setchannel\n🏷 Tags: wolf, fox\n🚫 Never: gore, scat\n📐 Rules:\n  1. [wolf] → [solo]"
    );
    configs.upsert(yiffy_corner::publisher::PublisherConfig {
        poster_id: p.id,
        chat_id: -100,
        token_path: s("t"),
        receive_announcements: false,
    });
    let bare = posters.create(vec![], vec![], PostInterval::new(5).unwrap(), 0).unwrap();
    configs.upsert(yiffy_corner::publisher::PublisherConfig {
        poster_id: bare.id,
        chat_id: -7,
        token_path: s("t"),
        receive_announcements: true,
    });
    assert_eq!(
        poster_summary(&bare, &configs, "created"),
        "Poster #1 — created\n⏱ Interval: every 5 min\n📍 Posts to: chat -7\n🏷 Tags: anything"
    );
    assert!(poster_summary(&p, &configs, "").contains("📍 Posts to: chat -100 (announcements muted)"));
}
