use std::collections::{HashMap, HashSet};

use yiffy_corner::curation::{
    check_similar, hashable, inspect_target, stage, sweep_window, Sweep, SweepOutcome, SweepResolution, BACKFILL_CAP,
};
use yiffy_corner::e621::{E621Pool, E621PoolCategory, E621PostMetadata};
use yiffy_corner::handler::HandlerError;
use yiffy_corner::policy::InMemoryForbiddenTagRepository;
use yiffy_corner::post::{InMemoryPostRepository, Post, PostId, PostStatus};
use yiffy_corner::poster::{InMemoryPosterRepository, PostInterval};
use yiffy_corner::publisher::ResolvedMedia;
use yiffy_corner::user::{InMemoryUserRepository, Role, TelegramId, UserId};

const NOW: i64 = 1_700_000_000_000;

fn s(x: &str) -> String {
    x.to_string()
}

fn post_with(repo: &mut InMemoryPostRepository, id: u64) -> PostId {
    repo.create(format!("https://e621.net/posts/{id}"), vec![], vec![], None, NOW, PostStatus::AwaitingModeration)
        .unwrap()
        .id
}

/// The duplicate check as the submission flow runs it: only photos are
/// hashed, a failed hash flags nothing.
fn hash_and_check(
    post: PostId,
    media: &ResolvedMedia,
    hashes: &HashMap<String, u64>,
    repo: &mut InMemoryPostRepository,
) -> Option<yiffy_corner::curation::SimilarPost> {
    let url = hashable(media)?;
    let hash = *hashes.get(&url)?;
    check_similar(post, hash, repo)
}

fn photo(path: &str) -> ResolvedMedia {
    ResolvedMedia::Photo(format!("https://cdn.example{path}"))
}

// ------------------------------------------------------------ duplicates ----

#[test]
fn near_duplicate_is_flagged_and_hash_stored() {
    let mut repo = InMemoryPostRepository::new();
    let original = post_with(&mut repo, 1);
    repo.set_phash(original, Some(0xFF00FF00FF00FF00)).unwrap();
    let incoming = post_with(&mut repo, 2);
    let hashes: HashMap<String, u64> = [(s("https://cdn.example/b.png"), 0xFF00FF00FF00FF03)].into_iter().collect();
    let hit = hash_and_check(incoming, &photo("/b.png"), &hashes, &mut repo).unwrap();
    assert_eq!(hit.post_id, original);
    assert_eq!(hit.distance, 2);
    assert_eq!(repo.find_by_id(incoming).unwrap().phash, Some(0xFF00FF00FF00FF03));
}

#[test]
fn distant_media_is_not_flagged() {
    let mut repo = InMemoryPostRepository::new();
    let original = post_with(&mut repo, 1);
    repo.set_phash(original, Some(0)).unwrap();
    let incoming = post_with(&mut repo, 2);
    let hashes: HashMap<String, u64> = [(s("https://cdn.example/b.png"), u64::MAX)].into_iter().collect();
    assert!(hash_and_check(incoming, &photo("/b.png"), &hashes, &mut repo).is_none());
    assert_eq!(repo.find_by_id(incoming).unwrap().phash, Some(u64::MAX));
}

#[test]
fn non_photo_media_is_skipped() {
    let mut repo = InMemoryPostRepository::new();
    let incoming = post_with(&mut repo, 1);
    let video = ResolvedMedia::Video(s("https://cdn.example/v.mp4"));
    assert!(hash_and_check(incoming, &video, &HashMap::new(), &mut repo).is_none());
    assert_eq!(repo.find_by_id(incoming).unwrap().phash, None);
    assert_eq!(hashable(&video), None);
    assert_eq!(hashable(&photo("/a.png")), Some(s("https://cdn.example/a.png")));
}

#[test]
fn hash_failure_never_blocks() {
    let mut repo = InMemoryPostRepository::new();
    let incoming = post_with(&mut repo, 1);
    assert!(hash_and_check(incoming, &photo("/nope.png"), &HashMap::new(), &mut repo).is_none());
}

#[test]
fn the_closest_earlier_hash_wins() {
    let mut repo = InMemoryPostRepository::new();
    let a = post_with(&mut repo, 1);
    let b = post_with(&mut repo, 2);
    repo.set_phash(a, Some(0b1111)).unwrap();
    repo.set_phash(b, Some(0b0001)).unwrap();
    let incoming = post_with(&mut repo, 3);
    let hit = check_similar(incoming, 0b0000, &mut repo).unwrap();
    assert_eq!(hit.post_id, b);
    assert_eq!(hit.distance, 1);
    // A post never matches itself.
    let lone = InMemoryPostRepository::new();
    let mut lone = lone;
    let only = post_with(&mut lone, 9);
    assert!(check_similar(only, 7, &mut lone).is_none());
}

// ----------------------------------------------------------------- pools ----

fn metadata(id: u64, tags: &[&str]) -> E621PostMetadata {
    E621PostMetadata {
        source: format!("https://e621.net/posts/{id}"),
        tags: tags.iter().map(|t| s(t)).collect(),
        artists: vec![],
        file_url: format!("https://static1.e621.net/data/{id}.png"),
        mp4_url: None,
        preview_url: format!("https://static1.e621.net/data/preview/{id}.png"),
        artist_sources: vec![],
        pools: vec![7],
    }
}

fn pool(page_ids: &[u64]) -> E621Pool {
    E621Pool {
        id: 7,
        name: s("Cool_Comic"),
        category: E621PoolCategory::Series,
        post_ids: page_ids.to_vec(),
        is_active: true,
    }
}

struct Fixture {
    users: InMemoryUserRepository,
    posts: InMemoryPostRepository,
    forbidden: InMemoryForbiddenTagRepository,
    pages: Vec<E621PostMetadata>,
    page_ids: Vec<u64>,
}

impl Fixture {
    fn new(page_ids: &[u64]) -> Self {
        Fixture {
            users: InMemoryUserRepository::new(),
            posts: InMemoryPostRepository::new(),
            forbidden: InMemoryForbiddenTagRepository::new(),
            pages: page_ids.iter().map(|id| metadata(*id, &["wolf"])).collect(),
            page_ids: page_ids.to_vec(),
        }
    }

    fn moderator(&mut self) -> TelegramId {
        self.users.create(TelegramId(1), Role::Moderator, None, None).unwrap();
        TelegramId(1)
    }

    fn pending_page(&mut self, e621_id: u64) -> Post {
        self.posts
            .create(
                format!("https://e621.net/posts/{e621_id}"),
                vec![s("wolf")],
                vec![],
                Some(UserId(42)),
                NOW,
                PostStatus::AwaitingModeration,
            )
            .unwrap()
    }

    fn stage(&mut self, actor: TelegramId, trigger: PostId) -> Result<yiffy_corner::curation::StagedPool, HandlerError> {
        let pages: Vec<E621PostMetadata> = self.pages.iter().map(yiffy_corner::e621::copy_metadata).collect();
        stage(actor, trigger, pool(&self.page_ids), pages, NOW, &self.users, &mut self.posts, &self.forbidden)
    }
}

#[test]
fn stages_every_page_in_pool_order_without_feed_positions() {
    let mut fx = Fixture::new(&[30, 10, 20]);
    let actor = fx.moderator();
    let trigger = fx.pending_page(10);
    let staged = fx.stage(actor, trigger.id).unwrap();
    let urls: Vec<String> = staged.posts.iter().map(|p| p.source.clone()).collect();
    assert_eq!(urls, vec!["https://e621.net/posts/30", "https://e621.net/posts/10", "https://e621.net/posts/20"]);
    for post in &staged.posts {
        assert_eq!(post.status, PostStatus::Accepted);
        assert_eq!(post.feed_position, None);
    }
    assert_eq!(staged.already_curated, 0);
    assert_eq!(staged.pool.id, 7);
}

#[test]
fn trigger_page_is_adopted_and_keeps_its_submitter() {
    let mut fx = Fixture::new(&[10, 20]);
    let actor = fx.moderator();
    let trigger = fx.pending_page(10);
    let staged = fx.stage(actor, trigger.id).unwrap();
    let adopted = staged.posts.iter().find(|p| p.id == trigger.id).unwrap();
    assert_eq!(adopted.submitted_by, trigger.submitted_by);
    let stored = fx.posts.find_by_id(trigger.id).unwrap();
    assert_eq!(stored.status, PostStatus::Accepted);
    assert_eq!(stored.feed_position, None);
    let sibling = staged.posts.iter().find(|p| p.id != trigger.id).unwrap();
    assert_eq!(sibling.submitted_by, None);
}

#[test]
fn already_curated_and_forbidden_pages_are_skipped() {
    let mut fx = Fixture::new(&[10, 20, 30]);
    fx.pages[2] = metadata(30, &["wolf", "gore"]);
    fx.forbidden.add("gore", None);
    let actor = fx.moderator();
    let trigger = fx.pending_page(10);
    let other = fx.pending_page(20);
    fx.posts.accept_into_feed(other.id).unwrap();

    let staged = fx.stage(actor, trigger.id).unwrap();
    assert_eq!(staged.posts.len(), 1);
    assert_eq!(staged.already_curated, 1);
    assert_eq!(staged.forbidden, 1);

    let again = fx.stage(actor, trigger.id).unwrap();
    assert!(again.posts.is_empty());
    assert_eq!(again.already_curated, 2);
}

#[test]
fn missing_upstream_pages_are_counted() {
    let mut fx = Fixture::new(&[10, 20]);
    fx.pages.pop();
    let actor = fx.moderator();
    let trigger = fx.pending_page(10);
    let staged = fx.stage(actor, trigger.id).unwrap();
    assert_eq!(staged.missing_upstream, 1);
    assert_eq!(staged.posts.len(), 1);
}

#[test]
fn plain_users_cannot_stage_pools() {
    let mut fx = Fixture::new(&[10]);
    fx.users.create(TelegramId(9), Role::User, None, None).unwrap();
    let trigger = fx.pending_page(10);
    assert!(matches!(fx.stage(TelegramId(9), trigger.id), Err(HandlerError::NotAuthorized(_))));
    assert_eq!(fx.posts.count(), 1);
}

#[test]
fn inspect_returns_fresh_pools_for_e621_posts_only() {
    let mut fx = Fixture::new(&[10]);
    let actor = fx.moderator();
    let trigger = fx.pending_page(10);
    let post = inspect_target(actor, trigger.id, &fx.users, &fx.posts).unwrap();
    assert_eq!(post.id, trigger.id);
    assert_eq!(pool(&[10]).display_name(), "Cool Comic");

    let tweet = fx
        .posts
        .create(s("https://x.com/a/status/1"), vec![s("wolf")], vec![], None, NOW, PostStatus::AwaitingModeration)
        .unwrap();
    match inspect_target(actor, tweet.id, &fx.users, &fx.posts) {
        Err(HandlerError::InvalidState(msg)) => assert_eq!(msg, "post 1 is not an e621 source"),
        _ => panic!("expected InvalidState"),
    }
}

// ----------------------------------------------------------------- sweep ----

fn feed_entry(posts: &mut InMemoryPostRepository, id: u64) -> Post {
    let p = post_with(posts, id);
    posts.accept_into_feed(p).unwrap()
}

/// One sweep as the housekeeper runs it: resolve every entry of the
/// window, hash photos that still lack one.
fn run_sweep(
    posts: &mut InMemoryPostRepository,
    posters: &InMemoryPosterRepository,
    gone: &HashSet<String>,
    flaky: &HashSet<String>,
    hashes: &HashMap<String, u64>,
) -> SweepOutcome {
    let window = sweep_window(posts, posters);
    let mut sweep = Sweep::new(window.len());
    for entry in &window {
        let resolution = if gone.contains(&entry.source) {
            SweepResolution::Gone
        } else if flaky.contains(&entry.source) {
            SweepResolution::Failed
        } else {
            SweepResolution::Resolved(ResolvedMedia::Photo(entry.source.clone()))
        };
        if let Some(url) = sweep.on_resolved(entry, resolution) {
            if let Some(h) = hashes.get(&url) {
                sweep.on_hashed(entry.id, *h, posts);
            }
        }
    }
    sweep.outcome
}

#[test]
fn gone_media_is_reported_transient_failures_are_not() {
    let mut posts = InMemoryPostRepository::new();
    let gone = feed_entry(&mut posts, 1);
    let flaky = feed_entry(&mut posts, 2);
    feed_entry(&mut posts, 3);
    let posters = InMemoryPosterRepository::new();
    let outcome = run_sweep(
        &mut posts,
        &posters,
        &[gone.source.clone()].into(),
        &[flaky.source.clone()].into(),
        &HashMap::new(),
    );
    assert_eq!(outcome.scanned, 3);
    assert_eq!(outcome.dead.len(), 1);
    assert_eq!(outcome.dead[0].post_id, gone.id);
    assert_eq!(outcome.dead[0].source, gone.source);
}

#[test]
fn missing_hashes_are_backfilled() {
    let mut posts = InMemoryPostRepository::new();
    let entry = feed_entry(&mut posts, 1);
    let hashed_already = feed_entry(&mut posts, 2);
    posts.set_phash(hashed_already.id, Some(42)).unwrap();
    let posters = InMemoryPosterRepository::new();
    let hashes: HashMap<String, u64> =
        [(entry.source.clone(), 0xABCD), (hashed_already.source.clone(), 7)].into_iter().collect();
    let outcome = run_sweep(&mut posts, &posters, &HashSet::new(), &HashSet::new(), &hashes);
    assert_eq!(outcome.hashes_backfilled, 1);
    assert_eq!(posts.find_by_id(entry.id).unwrap().phash, Some(0xABCD));
    assert_eq!(posts.find_by_id(hashed_already.id).unwrap().phash, Some(42));
}

#[test]
fn entries_every_poster_consumed_are_not_scanned() {
    let mut posts = InMemoryPostRepository::new();
    let consumed = feed_entry(&mut posts, 1);
    feed_entry(&mut posts, 2);
    let mut posters = InMemoryPosterRepository::new();
    for cursor in [1, 2] {
        posters.create(vec![], vec![], PostInterval::new(5).unwrap(), cursor).unwrap();
    }
    let outcome =
        run_sweep(&mut posts, &posters, &[consumed.source.clone()].into(), &HashSet::new(), &HashMap::new());
    assert_eq!(outcome.scanned, 1);
    assert!(outcome.dead.is_empty());
}

#[test]
fn the_backfill_stops_at_its_cap() {
    let mut posts = InMemoryPostRepository::new();
    let mut hashes = HashMap::new();
    for i in 0..(BACKFILL_CAP as u64 + 3) {
        let e = feed_entry(&mut posts, i + 1);
        hashes.insert(e.source.clone(), i);
    }
    let posters = InMemoryPosterRepository::new();
    let outcome = run_sweep(&mut posts, &posters, &HashSet::new(), &HashSet::new(), &hashes);
    assert_eq!(outcome.hashes_backfilled, BACKFILL_CAP);
    assert_eq!(posts.list_phashes().len(), BACKFILL_CAP);
}

#[test]
fn restaging_refuses_the_same_pages_and_counts_the_rest_as_curated() {
    let mut fx = Fixture::new(&[10, 20, 30, 40]);
    fx.pages[2] = metadata(30, &["wolf", "gore"]);
    fx.forbidden.add("gore", None);
    let actor = fx.moderator();
    let trigger = fx.pending_page(10);

    let first = fx.stage(actor, trigger.id).unwrap();
    assert_eq!(first.posts.len(), 3);
    assert_eq!(first.already_curated, 0);
    assert_eq!(first.forbidden, 1);

    let again = fx.stage(actor, trigger.id).unwrap();
    assert!(again.posts.is_empty());
    assert_eq!(again.forbidden, first.forbidden);
    assert_eq!(again.already_curated, first.posts.len() + first.already_curated);
}

#[test]
fn the_similarity_check_skips_non_photos_and_failed_hashes() {
    let mut repo = InMemoryPostRepository::new();
    let earlier = post_with(&mut repo, 1);
    let incoming = post_with(&mut repo, 2);
    let _ = yiffy_corner::curation::check_similar(earlier, 0b1010, &mut repo);
    let video = ResolvedMedia::Video("https://cdn.example/v.mp4".to_string());
    assert!(yiffy_corner::curation::similarity_check(incoming, &video, Some(0b1010), &mut repo).is_none());
    assert_eq!(repo.find_by_id(incoming).unwrap().phash, None);
    assert!(yiffy_corner::curation::similarity_check(incoming, &photo("/b.png"), None, &mut repo).is_none());
    assert_eq!(repo.find_by_id(incoming).unwrap().phash, None);
    let hit = yiffy_corner::curation::similarity_check(incoming, &photo("/b.png"), Some(0b1011), &mut repo).unwrap();
    assert_eq!(hit.post_id, earlier);
    assert_eq!(hit.distance, 1);
    assert_eq!(repo.find_by_id(incoming).unwrap().phash, Some(0b1011));
}
