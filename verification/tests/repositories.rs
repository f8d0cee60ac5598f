use yiffy_corner::policy::{
    InMemoryForbiddenTagRepository, InMemoryFulfillingRequestRepository, InMemoryReportRepository,
    InMemoryRequiredTagRepository, InMemoryShadowBanRepository, InMemorySkipListRepository,
    InMemorySpoilerTagRepository, Report, ScoreboardSettings, MILLIS_PER_HOUR,
};
use yiffy_corner::post::{InMemoryPostRepository, Post, PostId, PostRepositoryError, PostStatus};
use yiffy_corner::poster::{InMemoryPosterRepository, PostInterval, PosterId, PosterRepositoryError};
use yiffy_corner::tag_rule::{TagLiteral, TagTerm};
use yiffy_corner::user::{InMemoryUserRepository, Role, TelegramId, UserId};

fn source(id: u64) -> String {
    format!("https://e621.net/posts/{id}")
}

fn s(x: &str) -> String {
    x.to_string()
}

const NOW: i64 = 1_700_000_000_000;

fn create_default(repo: &mut InMemoryPostRepository) -> Post {
    repo.create(source(1), vec![s("wolf")], vec![], None, NOW, PostStatus::AwaitingModeration)
        .unwrap()
}

fn create_at(repo: &mut InMemoryPostRepository, i: u64) -> Post {
    repo.create(source(i), vec![], vec![], None, NOW, PostStatus::AwaitingModeration)
        .unwrap()
}

// ---------------------------------------------------------------- posts ----

#[test]
fn post_create_then_find_by_id_roundtrip() {
    let mut repo = InMemoryPostRepository::new();
    let post = create_default(&mut repo);
    let found = repo.find_by_id(post.id).unwrap();
    assert_eq!(found.id, post.id);
    assert_eq!(found.tags, vec![s("wolf")]);
    assert!(found.feed_position.is_none());
}

#[test]
fn post_create_assigns_unique_ids() {
    let mut repo = InMemoryPostRepository::new();
    let a = create_default(&mut repo);
    let b = repo.create(source(2), vec![], vec![], None, NOW, PostStatus::Accepted).unwrap();
    assert_ne!(a.id, b.id);
    assert_eq!(repo.count(), 2);
}

#[test]
fn remove_sets_status_to_deleted() {
    let mut repo = InMemoryPostRepository::new();
    let post = create_default(&mut repo);
    repo.remove(post.id).unwrap();
    assert_eq!(repo.find_by_id(post.id).unwrap().status, PostStatus::Deleted);
}

#[test]
fn mark_posted_updates_timestamp() {
    let mut repo = InMemoryPostRepository::new();
    let post = create_default(&mut repo);
    repo.mark_posted(post.id, NOW + 5).unwrap();
    assert_eq!(repo.find_by_id(post.id).unwrap().last_posted, Some(NOW + 5));
}

#[test]
fn find_by_source_locates_existing_post() {
    let mut repo = InMemoryPostRepository::new();
    let post = create_default(&mut repo);
    assert_eq!(repo.find_by_source(&post.source).map(|p| p.id), Some(post.id));
    assert!(repo.find_by_source(&source(99)).is_none());
}

#[test]
fn unknown_id_updates_return_not_found() {
    let mut repo = InMemoryPostRepository::new();
    assert!(matches!(repo.mark_posted(PostId(42), NOW), Err(PostRepositoryError::NotFound(_))));
    assert!(matches!(repo.accept_into_feed(PostId(42)), Err(PostRepositoryError::NotFound(_))));
    assert!(matches!(repo.remove(PostId(42)), Err(PostRepositoryError::NotFound(_))));
}

#[test]
fn accept_into_feed_assigns_monotonic_positions() {
    let mut repo = InMemoryPostRepository::new();
    let a = create_default(&mut repo);
    let b = create_at(&mut repo, 2);
    let a = repo.accept_into_feed(a.id).unwrap();
    let b = repo.accept_into_feed(b.id).unwrap();
    assert_eq!(a.feed_position, Some(1));
    assert_eq!(b.feed_position, Some(2));
    assert_eq!(a.status, PostStatus::Accepted);
    assert_eq!(repo.feed_end(), 2);
}

#[test]
fn accept_into_feed_is_idempotent_on_position() {
    let mut repo = InMemoryPostRepository::new();
    let post = create_default(&mut repo);
    let first = repo.accept_into_feed(post.id).unwrap();
    repo.set_status_to(post.id, PostStatus::Banned).unwrap();
    let again = repo.accept_into_feed(post.id).unwrap();
    assert_eq!(first.feed_position, again.feed_position);
    assert_eq!(again.status, PostStatus::Accepted);
    assert_eq!(repo.feed_end(), 1);
}

#[test]
fn feed_after_windows_and_orders() {
    let mut repo = InMemoryPostRepository::new();
    let mut accepted = Vec::new();
    for i in 1..=4u64 {
        let p = create_at(&mut repo, i);
        accepted.push(repo.accept_into_feed(p.id).unwrap());
    }
    // Banned entries stay visible, Deleted ones drop out.
    repo.set_status_to(accepted[2].id, PostStatus::Banned).unwrap();
    repo.remove(accepted[3].id).unwrap();
    let window = repo.feed_after(1, 4);
    let positions: Vec<u64> = window.iter().filter_map(|p| p.feed_position).collect();
    assert_eq!(positions, vec![2, 3]);
}

#[test]
fn feed_end_is_zero_when_empty() {
    let mut repo = InMemoryPostRepository::new();
    create_default(&mut repo);
    assert_eq!(repo.feed_end(), 0);
    assert!(repo.feed_after(0, 10).is_empty());
}

#[test]
fn set_tags_and_phash_roundtrip() {
    let mut repo = InMemoryPostRepository::new();
    let post = create_default(&mut repo);
    let updated = repo.set_tags(post.id, vec![s("fox"), s("solo")]).unwrap();
    assert_eq!(updated.tags, vec![s("fox"), s("solo")]);
    repo.set_phash(post.id, Some(0xABCD)).unwrap();
    assert_eq!(repo.list_phashes(), vec![(post.id, 0xABCD)]);
    repo.record_moderation(post.id, UserId(3), NOW + 1).unwrap();
    let found = repo.find_by_id(post.id).unwrap();
    assert_eq!(found.moderated_by, Some(UserId(3)));
    assert_eq!(found.moderated_at, Some(NOW + 1));
}

#[test]
fn list_by_status_filters() {
    let mut repo = InMemoryPostRepository::new();
    let a = create_at(&mut repo, 1);
    let b = create_at(&mut repo, 2);
    repo.accept_into_feed(b.id).unwrap();
    let waiting: Vec<PostId> = repo.list_by_status(PostStatus::AwaitingModeration).iter().map(|p| p.id).collect();
    assert_eq!(waiting, vec![a.id]);
    let accepted: Vec<PostId> = repo.list_by_status(PostStatus::Accepted).iter().map(|p| p.id).collect();
    assert_eq!(accepted, vec![b.id]);
}

// -------------------------------------------------------------- posters ----

fn fixture_interval() -> PostInterval {
    PostInterval::new(5).unwrap()
}

fn has(t: &str) -> TagTerm {
    TagTerm(vec![TagLiteral::Has(s(t))])
}

#[test]
fn poster_create_then_find_by_id_roundtrip() {
    let mut repo = InMemoryPosterRepository::new();
    let poster = repo.create(vec![], vec![], fixture_interval(), 0).unwrap();
    assert_eq!(repo.find_by_id(poster.id).map(|p| p.id), Some(poster.id));
}

#[test]
fn poster_create_assigns_unique_ids() {
    let mut repo = InMemoryPosterRepository::new();
    let a = repo.create(vec![], vec![], fixture_interval(), 0).unwrap();
    let b = repo.create(vec![], vec![], fixture_interval(), 0).unwrap();
    assert_ne!(a.id, b.id);
}

#[test]
fn find_by_id_unknown_returns_none() {
    let repo = InMemoryPosterRepository::new();
    assert!(repo.find_by_id(PosterId(42)).is_none());
}

#[test]
fn list_all_returns_every_created_poster() {
    let mut repo = InMemoryPosterRepository::new();
    for _ in 0..3 {
        repo.create(vec![], vec![], fixture_interval(), 0).unwrap();
    }
    assert_eq!(repo.list_all().len(), 3);
}

#[test]
fn set_tags_replaces_subscription_only() {
    let mut repo = InMemoryPosterRepository::new();
    let poster = repo.create(vec![has("fox")], vec![], fixture_interval(), 0).unwrap();
    let updated = repo.set_tags(poster.id, vec![has("wolf")], vec![s("gore")]).unwrap();
    assert_eq!(updated.subscribed_tags, vec![has("wolf")]);
    assert_eq!(updated.forbidden_tags, vec![s("gore")]);
    assert_eq!(updated.time_interval, fixture_interval());
    assert!(matches!(
        repo.set_tags(PosterId(99), vec![], vec![]),
        Err(PosterRepositoryError::NotFound(_))
    ));
}

#[test]
fn set_cursor_persists() {
    let mut repo = InMemoryPosterRepository::new();
    let poster = repo.create(vec![], vec![], fixture_interval(), 0).unwrap();
    assert_eq!(poster.cursor, 0);
    repo.set_cursor(poster.id, 17).unwrap();
    assert_eq!(repo.find_by_id(poster.id).unwrap().cursor, 17);
    assert!(matches!(repo.set_cursor(PosterId(99), 1), Err(PosterRepositoryError::NotFound(_))));
}

#[test]
fn create_persists_tag_subscription_and_interval() {
    let mut repo = InMemoryPosterRepository::new();
    let interval = PostInterval::new(15).unwrap();
    let poster = repo.create(vec![has("fox")], vec![s("snake")], interval, 0).unwrap();
    let found = repo.find_by_id(poster.id).unwrap();
    assert_eq!(found.subscribed_tags, vec![has("fox")]);
    assert_eq!(found.forbidden_tags, vec![s("snake")]);
    assert_eq!(found.time_interval, interval);
}

#[test]
fn deleted_poster_is_gone() {
    let mut repo = InMemoryPosterRepository::new();
    let a = repo.create(vec![], vec![], fixture_interval(), 0).unwrap();
    let b = repo.create(vec![], vec![], fixture_interval(), 0).unwrap();
    repo.delete(a.id).unwrap();
    assert!(repo.find_by_id(a.id).is_none());
    assert_eq!(repo.list_all().iter().map(|p| p.id).collect::<Vec<_>>(), vec![b.id]);
    assert!(matches!(repo.delete(a.id), Err(PosterRepositoryError::NotFound(_))));
}

#[test]
fn post_intervals_are_divisors_of_sixty() {
    assert!(PostInterval::new(0).is_err());
    assert!(PostInterval::new(7).is_err());
    assert!(PostInterval::new(61).is_err());
    for m in [1u8, 2, 3, 4, 5, 6, 10, 12, 15, 20, 30, 60] {
        assert_eq!(PostInterval::new(m).unwrap().minutes(), m);
    }
}

// ---------------------------------------------------------------- users ----

#[test]
fn create_roundtrip_and_duplicate_rejection() {
    let mut repo = InMemoryUserRepository::new();
    let u = repo.create(TelegramId(10), Role::User, None, Some(s("Ann"))).unwrap();
    assert_eq!(repo.find_by_id(u.id).unwrap().telegram_id, TelegramId(10));
    assert_eq!(repo.find_by_telegram_id(TelegramId(10)).unwrap().id, u.id);
    assert!(repo.create(TelegramId(10), Role::Owner, None, None).is_err());
}

#[test]
fn change_role_set_display_name_set_banned() {
    let mut repo = InMemoryUserRepository::new();
    let u = repo.create(TelegramId(10), Role::User, None, None).unwrap();
    let changed = repo.change_role(u.id, Role::Moderator).unwrap();
    assert_eq!(changed.role, Role::Moderator);
    repo.set_display_name(u.id, Some(s("Bo"))).unwrap();
    repo.set_banned(u.id, true).unwrap();
    let found = repo.find_by_id(u.id).unwrap();
    assert_eq!(found.display_name, Some(s("Bo")));
    assert!(found.is_banned);
}

#[test]
fn list_by_role_filters() {
    let mut repo = InMemoryUserRepository::new();
    repo.create(TelegramId(1), Role::User, None, None).unwrap();
    let m = repo.create(TelegramId(2), Role::Moderator, None, None).unwrap();
    repo.create(TelegramId(3), Role::Owner, None, None).unwrap();
    let mods: Vec<UserId> = repo.list_by_role(Role::Moderator).iter().map(|u| u.id).collect();
    assert_eq!(mods, vec![m.id]);
}

#[test]
fn updates_on_missing_user_error() {
    let mut repo = InMemoryUserRepository::new();
    assert!(repo.change_role(UserId(9), Role::Owner).is_err());
    assert!(repo.set_display_name(UserId(9), None).is_err());
    assert!(repo.set_banned(UserId(9), true).is_err());
}

#[test]
fn api_token_lookup() {
    let mut repo = InMemoryUserRepository::new();
    let u = repo.create(TelegramId(1), Role::User, None, None).unwrap();
    repo.set_api_token(u.id, Some(s("tok"))).unwrap();
    assert_eq!(repo.find_by_api_token("tok").map(|x| x.id), Some(u.id));
    assert!(repo.find_by_api_token("other").is_none());
}

#[test]
fn roles_order_and_read_back() {
    assert!(Role::Owner.at_least(Role::Moderator));
    assert!(Role::Moderator.at_least(Role::Moderator));
    assert!(!Role::User.at_least(Role::Moderator));
    for r in [Role::User, Role::Moderator, Role::Owner] {
        assert_eq!(Role::parse(&r.to_string()).unwrap(), r);
    }
    assert!(Role::parse("admin").is_err());
}

// --------------------------------------------------------------- policy ----

fn report(post: u64, reporter: i64, reason: Option<&str>) -> Report {
    Report { post_id: PostId(post), reporter: TelegramId(reporter), reported_at: NOW, reason: reason.map(s) }
}

#[test]
fn add_dedupes_per_reporter_and_counts() {
    let mut repo = InMemoryReportRepository::new();
    assert!(repo.add(report(1, 10, Some("spam"))));
    assert!(!repo.add(report(1, 10, Some("again"))));
    assert!(repo.add(report(1, 11, None)));
    assert!(repo.add(report(2, 10, None)));
    assert_eq!(repo.count_for(PostId(1)), 2);
    assert_eq!(repo.count_for(PostId(2)), 1);
    repo.clear_for(PostId(1));
    assert_eq!(repo.count_for(PostId(1)), 0);
    assert_eq!(repo.count_for(PostId(2)), 1);
    assert!(repo.add(report(1, 10, None)));
}

#[test]
fn set_lift_contains_roundtrip() {
    let mut repo = InMemoryShadowBanRepository::new();
    assert!(!repo.contains(TelegramId(5)));
    repo.set(TelegramId(5), TelegramId(1), NOW);
    assert!(repo.contains(TelegramId(5)));
    repo.lift(TelegramId(5));
    assert!(!repo.contains(TelegramId(5)));
}

#[test]
fn add_is_idempotent_and_contains_finds_it() {
    let mut repo = InMemorySkipListRepository::new();
    repo.add("https://e621.net/posts/1", TelegramId(1), NOW);
    repo.add("https://e621.net/posts/1", TelegramId(2), NOW);
    assert!(repo.contains("https://e621.net/posts/1"));
    assert!(!repo.contains("https://e621.net/posts/2"));
}

#[test]
fn set_replace_clear_roundtrip() {
    let mut repo = InMemoryFulfillingRequestRepository::new();
    assert_eq!(repo.active(TelegramId(1)), None);
    repo.set(TelegramId(1), "more foxes", NOW);
    assert_eq!(repo.active(TelegramId(1)), Some(s("more foxes")));
    repo.set(TelegramId(1), "more wolves", NOW);
    assert_eq!(repo.active(TelegramId(1)), Some(s("more wolves")));
    repo.clear(TelegramId(1));
    assert_eq!(repo.active(TelegramId(1)), None);
}

#[test]
fn forbidden_add_then_contains() {
    let mut repo = InMemoryForbiddenTagRepository::new();
    repo.add("gore", Some(s("policy")));
    assert!(repo.contains("gore"));
    assert_eq!(repo.reason_for("gore"), Some(s("policy")));
}

#[test]
fn forbidden_remove_drops_membership() {
    let mut repo = InMemoryForbiddenTagRepository::new();
    repo.add("gore", None);
    repo.remove("gore");
    assert!(!repo.contains("gore"));
    assert_eq!(repo.reason_for("gore"), None);
}

#[test]
fn forbidden_add_is_idempotent() {
    let mut repo = InMemoryForbiddenTagRepository::new();
    repo.add("gore", None);
    repo.add("gore", None);
    assert_eq!(repo.list_all(), vec![s("gore")]);
}

#[test]
fn forbidden_list_all_returns_every_added() {
    let mut repo = InMemoryForbiddenTagRepository::new();
    repo.add("scat", None);
    repo.add("gore", Some(s("no")));
    assert_eq!(repo.list_all(), vec![s("gore"), s("scat")]);
    assert_eq!(repo.list_with_reasons(), vec![(s("gore"), Some(s("no"))), (s("scat"), None)]);
}

#[test]
fn required_add_then_contains() {
    let mut repo = InMemoryRequiredTagRepository::new();
    repo.add("rating:s");
    assert!(repo.contains("rating:s"));
    assert_eq!(repo.list_all(), vec![s("rating:s")]);
}

#[test]
fn required_remove_drops_membership() {
    let mut repo = InMemoryRequiredTagRepository::new();
    repo.add("rating:s");
    repo.remove("rating:s");
    assert!(!repo.contains("rating:s"));
}

#[test]
fn spoiler_tags_roundtrip() {
    let mut repo = InMemorySpoilerTagRepository::new();
    repo.add("cw:blood");
    repo.add("vore");
    assert!(repo.contains("vore"));
    repo.remove("vore");
    assert!(!repo.contains("vore"));
    assert_eq!(repo.list_all(), vec![s("cw:blood")]);
}

#[test]
fn due_logic() {
    let now = NOW;
    let mut settings = ScoreboardSettings::disabled();
    assert!(!settings.due(now)); // disabled

    settings.interval_hours = 168;
    assert!(settings.due(now)); // never posted

    settings.last_posted_at = Some(now - 167 * MILLIS_PER_HOUR);
    assert!(!settings.due(now));
    settings.last_posted_at = Some(now - 169 * MILLIS_PER_HOUR);
    assert!(settings.due(now));
    settings.last_posted_at = Some(now - 168 * MILLIS_PER_HOUR);
    assert!(settings.due(now));
}
