use yiffy_corner::diagnosis::{needs_upstream, postinfo_target, postinfo_text, poster_verdicts, resolve_publish_code};
use yiffy_corner::handler::{post_info, HandlerError};
use yiffy_corner::policy::InMemoryReportRepository;
use yiffy_corner::publisher::InMemoryPublicationRepository;
use yiffy_corner::user::{InMemoryUserRepository, Role, TelegramId};
use yiffy_corner::e621::{E621PostMetadata, FetchError};
use yiffy_corner::policy::InMemoryForbiddenTagRepository;
use yiffy_corner::post::{InMemoryPostRepository, Post, PostStatus};
use yiffy_corner::poster::{InMemoryPosterRepository, PostInterval};
use yiffy_corner::publisher::{InMemoryPublisherConfigRepository, Publication, PublisherConfig};
use yiffy_corner::scheduler::publish_code;
use yiffy_corner::tag_rule::{TagLiteral, TagTerm};

const NOW: i64 = 1_700_000_000_000;

fn s(x: &str) -> String {
    x.to_string()
}

fn tags(ts: &[&str]) -> Vec<String> {
    ts.iter().map(|t| s(t)).collect()
}

fn has(t: &str) -> TagTerm {
    TagTerm(vec![TagLiteral::Has(s(t))])
}

/// A feed of `n` entries from `source_of`, all with `entry_tags`.
fn feed(sources: &[&str], entry_tags: &[&str]) -> (InMemoryPostRepository, Vec<Post>) {
    let mut posts = InMemoryPostRepository::new();
    let mut out = Vec::new();
    for src in sources {
        let p = posts
            .create(s(src), tags(entry_tags), vec![], None, NOW, PostStatus::AwaitingModeration)
            .unwrap();
        out.push(posts.accept_into_feed(p.id).unwrap());
    }
    (posts, out)
}

fn bind(configs: &mut InMemoryPublisherConfigRepository, poster: u64, chat: i64) {
    configs.upsert(PublisherConfig {
        poster_id: yiffy_corner::poster::PosterId(poster),
        chat_id: chat,
        token_path: s("/run/secrets/bot"),
        receive_announcements: true,
    });
}

#[test]
fn an_entry_outside_the_feed_is_published_nowhere() {
    let mut posts = InMemoryPostRepository::new();
    let pending = posts
        .create(s("https://example.com/a.png"), tags(&["wolf"]), vec![], None, NOW, PostStatus::AwaitingModeration)
        .unwrap();
    assert!(!needs_upstream(&pending));
    let lines = poster_verdicts(
        &pending,
        None,
        &InMemoryForbiddenTagRepository::new(),
        &InMemoryPosterRepository::new(),
        &InMemoryPublisherConfigRepository::new(),
        &vec![],
    );
    assert_eq!(lines, vec![s("Posters: not in the feed (AwaitingModeration) — nothing publishes it.")]);
}

#[test]
fn each_poster_gets_its_own_verdict() {
    let (_posts, entries) = feed(&["https://example.com/1", "https://example.com/2", "https://example.com/3"], &["wolf", "solo"]);
    let entry = &entries[1]; // feed position 2
    let mut posters = InMemoryPosterRepository::new();
    let interval = PostInterval::new(5).unwrap();
    posters.create(vec![has("wolf")], vec![], interval, 0).unwrap(); // #0: published in chat -10
    posters.create(vec![has("fox")], vec![], interval, 0).unwrap(); // #1: refuses
    posters.create(vec![], vec![], interval, 0).unwrap(); // #2: no channel
    posters.create(vec![], vec![], interval, 3).unwrap(); // #3: cursor past it
    posters.create(vec![], vec![], interval, 1).unwrap(); // #4: still ahead
    let mut configs = InMemoryPublisherConfigRepository::new();
    bind(&mut configs, 0, -10);
    bind(&mut configs, 1, -11);
    bind(&mut configs, 3, -13);
    bind(&mut configs, 4, -14);
    let delivered = vec![Publication { post_id: entry.id, chat_id: -10, message_id: 7, published_at: NOW }];
    assert!(!needs_upstream(entry));
    let lines = poster_verdicts(entry, None, &InMemoryForbiddenTagRepository::new(), &posters, &configs, &delivered);
    assert_eq!(
        lines,
        vec![
            s("Posters:"),
            s("  #0 (chat -10): ✅ published here"),
            s("  #1 (chat -11): ⛔ missing `fox`"),
            s("  #2 (UNBOUND): ⏸ eligible, but the poster has no channel"),
            s("  #3 (chat -13): ⏭ missed — cursor 3 is already past position 2 (eligible now; it was skipped or unpostable when scanned)"),
            s("  #4 (chat -14): ⏳ queued — cursor 1 of 2, posts on an upcoming tick"),
        ]
    );
}

#[test]
fn a_globally_forbidden_tag_bans_everywhere() {
    let (_posts, entries) = feed(&["https://example.com/1"], &["wolf", "gore"]);
    let mut forbidden = InMemoryForbiddenTagRepository::new();
    forbidden.add("gore", None);
    let lines = poster_verdicts(
        &entries[0],
        None,
        &forbidden,
        &InMemoryPosterRepository::new(),
        &InMemoryPublisherConfigRepository::new(),
        &vec![],
    );
    assert_eq!(lines, vec![s("Posters: globally forbidden tag `gore` — Banned for every poster.")]);
}

#[test]
fn no_posters_means_none_configured() {
    let (_posts, entries) = feed(&["https://example.com/1"], &["wolf"]);
    let lines = poster_verdicts(
        &entries[0],
        None,
        &InMemoryForbiddenTagRepository::new(),
        &InMemoryPosterRepository::new(),
        &InMemoryPublisherConfigRepository::new(),
        &vec![],
    );
    assert_eq!(lines, vec![s("Posters: none configured.")]);
}

fn live(tags_now: &[&str]) -> E621PostMetadata {
    E621PostMetadata {
        source: s("https://e621.net/posts/1"),
        tags: tags(tags_now),
        artists: vec![],
        file_url: s("https://static1.e621.net/data/a.png"),
        mp4_url: None,
        preview_url: s(""),
        artist_sources: vec![],
        pools: vec![],
    }
}

#[test]
fn e621_entries_are_judged_on_their_live_tags() {
    let (_posts, entries) = feed(&["https://e621.net/posts/1"], &["wolf"]);
    let entry = &entries[0];
    assert!(needs_upstream(entry));
    let mut posters = InMemoryPosterRepository::new();
    posters.create(vec![has("wolf")], vec![], PostInterval::new(5).unwrap(), 0).unwrap();
    let mut configs = InMemoryPublisherConfigRepository::new();
    bind(&mut configs, 0, 42);
    let none = InMemoryForbiddenTagRepository::new();
    // Upstream retagged the post: it no longer carries `wolf`.
    let lines = poster_verdicts(entry, Some(Ok(live(&["fox"]))), &none, &posters, &configs, &vec![]);
    assert_eq!(lines, vec![s("Posters:"), s("  #0 (chat 42): ⛔ missing `wolf`")]);

    let gone = poster_verdicts(entry, Some(Err(FetchError::NotFound(s("x")))), &none, &posters, &configs, &vec![]);
    assert_eq!(gone, vec![s("Posters: upstream post is gone (deleted/DNP) — every poster skips it.")]);

    let failed = poster_verdicts(entry, Some(Err(FetchError::RateLimit)), &none, &posters, &configs, &vec![]);
    assert_eq!(failed, vec![s("Posters: diagnosis unavailable, e621 fetch failed: e621 rate limit hit")]);
}

#[test]
fn a_publication_code_finds_its_entry() {
    let (posts, entries) = feed(&["https://example.com/1", "https://example.com/2"], &["wolf"]);
    let mut posters = InMemoryPosterRepository::new();
    posters.create(vec![], vec![], PostInterval::new(5).unwrap(), 0).unwrap();
    posters.create(vec![], vec![], PostInterval::new(5).unwrap(), 0).unwrap();
    let code = publish_code(&entries[1], yiffy_corner::poster::PosterId(1));
    let typed = format!("  #{}  ", code.to_lowercase());
    assert_eq!(resolve_publish_code(&typed, &posts, &posters), Some(entries[1].id));
    assert_eq!(resolve_publish_code(&code, &posts, &posters), Some(entries[1].id));
    assert_eq!(resolve_publish_code("#SHORT", &posts, &posters), None);
    assert_eq!(resolve_publish_code("#AAAA-AAA", &posts, &posters), None);
}

#[test]
fn postinfo_audits_a_post() {
    let mut users = InMemoryUserRepository::new();
    let owner = users.create(TelegramId(10), Role::Owner, None, Some(s("Zuri"))).unwrap();
    let fan = users.create(TelegramId(20), Role::User, None, None).unwrap();
    let mut posts = InMemoryPostRepository::new();
    let p = posts
        .create(s("https://example.com/art/1"), tags(&["wolf", "solo"]), tags(&["someone"]), Some(fan.id), NOW, PostStatus::AwaitingModeration)
        .unwrap();
    posts.record_moderation(p.id, owner.id, NOW).unwrap();
    posts.accept_into_feed(p.id).unwrap();
    let mut publications = InMemoryPublicationRepository::new();
    publications.record(Publication { post_id: p.id, chat_id: -100, message_id: 5, published_at: NOW });
    let reports = InMemoryReportRepository::new();
    let posters = InMemoryPosterRepository::new();
    let configs = InMemoryPublisherConfigRepository::new();

    assert!(matches!(
        post_info(TelegramId(20), p.id, &users, &posts, &publications, &reports),
        Err(HandlerError::NotAuthorized(_))
    ));
    assert!(matches!(
        post_info(TelegramId(10), yiffy_corner::post::PostId(99), &users, &posts, &publications, &reports),
        Err(HandlerError::PostNotFound(_))
    ));
    let info = post_info(TelegramId(10), p.id, &users, &posts, &publications, &reports).unwrap();
    assert_eq!(info.report_count, 0);
    assert_eq!(info.publications.len(), 1);
    assert_eq!(postinfo_target("0", &posts, &posters), Some(p.id));
    let text = postinfo_text(&info, None, &InMemoryForbiddenTagRepository::new(), &posters, &configs);
    assert_eq!(
        text,
        [
            "Post #0 — Accepted (feed position 1)",
            "Source: https://example.com/art/1",
            "Submitted: 2023-11-14 22:13 UTC by unnamed (id 20, user)",
            "Moderated: 2023-11-14 22:13 UTC by Zuri (id 10, owner)",
            "Tags (2): wolf solo",
            "Artists: someone",
            "Last posted: never",
            "Reports: 0",
            "Published 1 time(s):",
            "  • chat -100 msg 5 at 2023-11-14 22:13 UTC",
            "",
            "Posters: none configured.",
        ]
        .join("\n")
    );
}
