use yiffy_corner::bot::ModerationDialogue;
use yiffy_corner::callback::{callback_action, CallbackAction};
use yiffy_corner::e621::E621PostMetadata;
use yiffy_corner::handler::HandlerError;
use yiffy_corner::moderation::{
    approve, approve_with_extra_tags, decision_outcome, extra_tags_reply, reject, rejected_reply, rejection_notice,
    takedown_reply,
};
use yiffy_corner::policy::InMemoryForbiddenTagRepository;
use yiffy_corner::pool_batch::{pool_done_text, pool_start_text, PoolBatchReport};
use yiffy_corner::post::{InMemoryPostRepository, PostId, PostStatus};
use yiffy_corner::submission::{
    contact_label, create_submission, review_text, submission_gate, submit_reply, tags_needed_reply, SubmitGate,
    SubmitOutcome,
};
use yiffy_corner::curation::SimilarPost;
use yiffy_corner::user::{InMemoryUserRepository, Role, TelegramId};

const NOW: i64 = 1_700_000_000_000;

fn s(x: &str) -> String {
    x.to_string()
}

fn setup() -> (InMemoryUserRepository, InMemoryPostRepository) {
    let mut users = InMemoryUserRepository::new();
    users.create(TelegramId(1), Role::Moderator, None, Some(s("Mod"))).unwrap();
    users.create(TelegramId(2), Role::User, None, Some(s("Fan"))).unwrap();
    let mut posts = InMemoryPostRepository::new();
    posts
        .create(s("https://e621.net/posts/1"), vec![s("wolf")], vec![], None, NOW, PostStatus::AwaitingModeration)
        .unwrap();
    posts
        .create(s("https://e621.net/posts/2"), vec![s("fox")], vec![], None, NOW, PostStatus::AwaitingModeration)
        .unwrap();
    (users, posts)
}

#[test]
fn approving_puts_the_post_in_the_feed() {
    let (users, mut posts) = setup();
    let p = approve(TelegramId(1), PostId(1), NOW, &users, &mut posts).unwrap();
    assert_eq!(p.status, PostStatus::Accepted);
    assert_eq!(p.feed_position, Some(1));
    assert!(p.moderated_by.is_some());
    assert_eq!(decision_outcome(Ok(p)), "Post #1 → Accepted");
    assert!(matches!(approve(TelegramId(2), PostId(0), NOW, &users, &mut posts), Err(HandlerError::NotAuthorized(_))));
    assert!(matches!(approve(TelegramId(1), PostId(9), NOW, &users, &mut posts), Err(HandlerError::PostNotFound(_))));
}

#[test]
fn rejecting_keeps_it_out() {
    let (users, mut posts) = setup();
    let p = reject(TelegramId(1), PostId(0), NOW, &users, &mut posts).unwrap();
    assert_eq!(p.status, PostStatus::Rejected);
    assert_eq!(p.feed_position, None);
    assert_eq!(decision_outcome(Ok(p)), "Post #0 → Rejected");
    assert_eq!(decision_outcome(Err(HandlerError::UnknownActor)), "You are not allowed to do that.");
    assert_eq!(rejection_notice(PostId(0), "blurry"), "Your submission #0 was rejected by the moderators.\nReason: blurry");
    assert_eq!(rejected_reply(PostId(0), true), "Post #0 rejected — the submitter was told why.");
}

#[test]
fn extra_tags_merge_without_duplicates() {
    let (users, mut posts) = setup();
    let extra = vec![s("wolf"), s("solo"), s("solo")];
    let p = approve_with_extra_tags(TelegramId(1), PostId(0), &extra, NOW, &users, &mut posts).unwrap();
    assert_eq!(p.tags, vec![s("wolf"), s("solo")]);
    assert_eq!(p.status, PostStatus::Accepted);
    assert_eq!(
        extra_tags_reply(PostId(0), p.tags.len(), extra.len()),
        "Post #0 accepted into the feed with 2 tags (3 supplied, duplicates ignored)."
    );
    assert_eq!(takedown_reply(PostId(0), 1, 2), "Post #0 taken down (1/2 channel message(s) deleted).");
}

#[test]
fn buttons_decide_their_action() {
    match callback_action("mod:reason:7", Some(Role::Moderator)) {
        CallbackAction::OpenDialogue { dialogue, prompt, toast } => {
            assert_eq!(dialogue, ModerationDialogue::RejectReason(PostId(7)));
            assert_eq!(prompt, "Reply with the reason for rejecting post #7 — it will be sent to the submitter.");
            assert_eq!(toast, "Waiting for your reply for post #7.");
        },
        other => panic!("unexpected {:?}", other),
    }
    assert!(matches!(
        callback_action("mod:addtags:7", Some(Role::User)),
        CallbackAction::Toast(t) if t == "You are not allowed to do that."
    ));
    assert!(matches!(callback_action("mod:changes:7", None), CallbackAction::Toast(_)));
    assert!(matches!(
        callback_action("mod:approve:7", None),
        CallbackAction::Moderate { post_id: PostId(7), approve: true }
    ));
    assert!(matches!(callback_action("mod:reject:x", None), CallbackAction::Reflect(t) if t == "Malformed callback."));
    assert!(matches!(callback_action("pool:list:3", None), CallbackAction::ListPools(PostId(3))));
    assert!(matches!(callback_action("pool:back:3:2", None), CallbackAction::RestoreReview { post_id: PostId(3), pools: 2 }));
    assert!(matches!(
        callback_action("pool:pick:3:44", None),
        CallbackAction::SubmitPool { post_id: PostId(3), pool_id: 44, .. }
    ));
    assert!(matches!(callback_action("report:x", None), CallbackAction::Toast(t) if t == "Malformed report."));
    assert!(matches!(callback_action("repmod:take:5", None), CallbackAction::TakeDown(PostId(5))));
    assert!(matches!(callback_action("browse:skip:9", None), CallbackAction::BrowseSkip(9)));
    assert!(matches!(callback_action("brmore", None), CallbackAction::BrowseMore));
    assert!(matches!(callback_action("nonsense", None), CallbackAction::Answer));
}

#[test]
fn the_submission_gate() {
    let (_users, posts) = setup();
    assert!(matches!(submission_gate("not a url", false, false, &posts), SubmitGate::Invalid));
    assert!(matches!(submission_gate("https://example.com/a", true, false, &posts), SubmitGate::Invalid));
    assert!(matches!(submission_gate("https://x.com/a/status/1", true, true, &posts), SubmitGate::Banned));
    assert!(matches!(submission_gate("https://e621.net/posts/1", false, false, &posts), SubmitGate::Duplicate(PostId(0))));
    assert!(matches!(
        submission_gate("https://e621.net/posts/77", false, false, &posts),
        SubmitGate::FetchE621 { e621_id: 77, .. }
    ));
    assert!(matches!(submission_gate("https://x.com/a/status/1", false, false, &posts), SubmitGate::NeedsTags));
    match submission_gate("https://www.furaffinity.net/view/5/", true, false, &posts) {
        SubmitGate::Ready { source } => assert_eq!(source, "https://www.furaffinity.net/view/5/"),
        other => panic!("unexpected {:?}", other),
    }
}

fn meta(tags: &[&str]) -> E621PostMetadata {
    E621PostMetadata {
        source: s("https://e621.net/posts/77"),
        tags: tags.iter().map(|t| s(t)).collect(),
        artists: vec![s("someone")],
        file_url: s("https://static1.e621.net/data/a.png"),
        mp4_url: None,
        preview_url: s(""),
        artist_sources: vec![],
        pools: vec![12],
    }
}

#[test]
fn a_submission_is_queued_or_auto_banned() {
    let (users, mut posts) = setup();
    let mut forbidden = InMemoryForbiddenTagRepository::new();
    forbidden.add("gore", Some(s("too graphic")));
    let fan = users.find_by_telegram_id(TelegramId(2)).unwrap();
    let r = create_submission(s("https://e621.net/posts/77"), &vec![s("solo"), s("wolf")], Some(meta(&["wolf"])), fan.id, NOW, &users, &forbidden, &mut posts);
    match &r {
        Ok(SubmitOutcome::Queued { post, reviewers, pool_ids }) => {
            assert_eq!(post.id, PostId(2));
            assert_eq!(post.tags, vec![s("wolf"), s("solo")]);
            assert_eq!(post.artists, vec![s("someone")]);
            assert_eq!(post.status, PostStatus::AwaitingModeration);
            assert_eq!(reviewers.len(), 1);
            assert_eq!(pool_ids, &vec![12]);
        },
        other => panic!("unexpected {:?}", other),
    }
    assert_eq!(submit_reply(r, None), "Submission #2 is in the moderation queue — you'll see it posted once approved!");
    let banned = create_submission(s("https://x.com/a/status/9"), &vec![s("gore")], None, fan.id, NOW, &users, &forbidden, &mut posts);
    match &banned {
        Ok(SubmitOutcome::AutoBanned { post, tag, .. }) => {
            assert_eq!(post.status, PostStatus::Banned);
            assert_eq!(tag, "gore");
        },
        other => panic!("unexpected {:?}", other),
    }
    assert_eq!(submit_reply(banned, None), "This post contains content that is not allowed here (gore: too graphic).");
    assert!(tags_needed_reply().starts_with("Almost there!"));
}

#[test]
fn the_review_message() {
    let (_users, posts) = setup();
    let post = posts.find_by_id(PostId(0)).unwrap();
    let contact = contact_label(&Some(s("Fan")), &None, 2);
    assert_eq!(contact, "Fan (id 2)");
    assert_eq!(contact_label(&None, &Some(s("fanny")), 2), "a user (@fanny)");
    let text = review_text(&post, None, &contact, Some(SimilarPost { post_id: PostId(1), distance: 0 }));
    assert_eq!(
        text,
        "New submission #0\nhttps://e621.net/posts/1\nTags: wolf\nSubmitted by Fan (id 2)\n⚠️ Looks like post #1 (identical image)"
    );
}

#[test]
fn pool_submission_notices() {
    assert_eq!(pool_start_text("Comic", 0, 2, 0, 1), "📚 Pool \"Comic\": nothing new to publish. Skipped: 2 already curated, 1 gone upstream.");
    assert_eq!(
        pool_start_text("Comic", 12, 0, 0, 0),
        "📚 Pool \"Comic\": publishing 12 page(s) in groups of 5 every 30s to every channel this post matches."
    );
    assert_eq!(
        pool_start_text("Comic", 3, 0, 1, 0),
        "📚 Pool \"Comic\": publishing 3 page(s) all at once to every channel this post matches. Skipped: 1 forbidden."
    );
    let report = PoolBatchReport { channels: 2, published: 3, unresolved: 1, send_failures: 0, poster_skips: 2 };
    assert_eq!(
        pool_done_text("Comic", 4, &report),
        "📚 Pool \"Comic\" done: 3/4 page(s) published to 2 channel(s). 1 page(s) had dead media. 2 page-channel skip(s) from channel tag policy."
    );
    let none = PoolBatchReport { channels: 0, published: 0, unresolved: 0, send_failures: 0, poster_skips: 0 };
    assert_eq!(
        pool_done_text("Comic", 4, &none),
        "📚 Pool \"Comic\": no poster's subscription matches the reviewed post, so nothing was published. The pages stay curated."
    );
}
