use yiffy_corner::bot::command_word;
use yiffy_corner::handler::posters_in_chat;
use yiffy_corner::poster::{InMemoryPosterRepository, PostInterval};
use yiffy_corner::publisher::{InMemoryPublisherConfigRepository, PublisherConfig};
use yiffy_corner::tag_rule::{terms_to_string, TagRule, TagTerm};

#[test]
fn command_word_strips_the_slash_and_the_bot_name() {
    assert_eq!(command_word("/start@yiffy_corner_bot hello"), Some("start".to_string()));
    assert_eq!(command_word("  /help"), Some("help".to_string()));
    assert_eq!(command_word("/suggest https://e621.net/posts/1 wolf"), Some("suggest".to_string()));
    assert_eq!(command_word("/"), Some(String::new()));
    assert_eq!(command_word("hello /start"), None);
    assert_eq!(command_word(""), None);
}

#[test]
fn posters_in_chat_lists_the_bound_posters_in_order() {
    let mut posters = InMemoryPosterRepository::new();
    let a = posters.create(vec![], vec![], PostInterval::new(5).unwrap(), 0).unwrap();
    let b = posters.create(vec![], vec![], PostInterval::new(5).unwrap(), 0).unwrap();
    let c = posters.create(vec![], vec![], PostInterval::new(5).unwrap(), 0).unwrap();
    let mut configs = InMemoryPublisherConfigRepository::new();
    for (id, chat) in [(c.id, -100), (a.id, -100), (b.id, -7)] {
        configs.upsert(PublisherConfig { poster_id: id, chat_id: chat, token_path: "t".to_string(), receive_announcements: false });
    }
    assert_eq!(posters_in_chat(&posters, &configs, -100), vec![a.id, c.id]);
    assert_eq!(posters_in_chat(&posters, &configs, -7), vec![b.id]);
    assert!(posters_in_chat(&posters, &configs, 42).is_empty());
}

#[test]
fn a_parsed_term_list_prints_and_reads_back() {
    let terms = TagTerm::parse_list("  wolf (male   -female)\t-gore ").unwrap();
    let printed = terms_to_string(&terms);
    assert_eq!(printed, "wolf (male -female) -gore");
    assert_eq!(TagTerm::parse_list(&printed).unwrap(), terms);
    assert!(TagTerm::parse_list(" \t ").unwrap().is_empty());
}

#[test]
fn a_rule_list_storage_form_reads_back() {
    let rules = TagRule::parse_all("  [solo]->[-male]   [duo (a b)]->[female] ").unwrap();
    let stored = rules.iter().map(|r| r.to_string()).collect::<Vec<_>>().join(" ");
    assert_eq!(stored, "[solo]->[-male] [duo (a b)]->[female]");
    assert_eq!(TagRule::parse_all(&stored).unwrap(), rules);
}

use yiffy_corner::e621::{collect_pool_page, RawPost, RawTags};
use yiffy_corner::handler::{scoreboards_command, ScoreboardsOrder};
use yiffy_corner::phash::hamming;
use yiffy_corner::policy::ScoreboardSettings;
use yiffy_corner::post::{InMemoryPostRepository, PostStatus};
use yiffy_corner::publisher::{InMemoryPublicationRepository, PublishReceipt};
use yiffy_corner::scheduler::{content_warnings, record_delivery};
use yiffy_corner::user::{InMemoryUserRepository, Role, TelegramId};

fn raw(id: u64, file: Option<&str>) -> RawPost {
    let none = Vec::new;
    RawPost {
        id,
        file_url: file.map(str::to_string),
        preview_url: None,
        sample: None,
        tags: RawTags {
            general: vec!["wolf".to_string()],
            species: none(),
            character: none(),
            copyright: none(),
            artist: none(),
            meta: none(),
            lore: none(),
            invalid: none(),
        },
        sources: none(),
        pools: Vec::new(),
    }
}

#[test]
fn a_pool_answer_keeps_served_posts_and_passes_over_deleted_ones() {
    let mut ids = Vec::new();
    let mut pages = Vec::new();
    collect_pool_page(
        vec![raw(3, Some("https://static1.e621.net/c.png")), raw(4, None), raw(1, Some("https://static1.e621.net/b.png"))],
        &mut ids,
        &mut pages,
    );
    assert_eq!(ids, vec![3, 1]);
    let sources: Vec<&str> = pages.iter().map(|p| p.source.as_str()).collect();
    assert_eq!(sources, vec!["https://e621.net/posts/3", "https://e621.net/posts/1"]);
}

#[test]
fn hamming_counts_the_differing_bit_positions() {
    for (a, b) in [(0u64, 0u64), (0b1011, 0b0110), (u64::MAX, 0), (0x8000_0000_0000_0001, 1), (12345, 67890)] {
        let by_bits = (0..64).filter(|i| (a >> i) & 1 != (b >> i) & 1).count() as u32;
        assert_eq!(hamming(a, b), by_bits);
    }
}

#[test]
fn content_warnings_come_in_order_of_first_appearance() {
    let tags: Vec<String> = ["cw_gore", "wolf", "CW:blood", "vore", "cw_gore", "cw:Vore"].iter().map(|t| t.to_string()).collect();
    let spoilers = vec!["vore".to_string()];
    assert_eq!(content_warnings(&tags, &spoilers), vec!["gore", "blood", "vore"]);
}

#[test]
fn scoreboards_command_sets_stops_and_runs_rounds() {
    let mut users = InMemoryUserRepository::new();
    users.create(TelegramId(1), Role::Owner, None, None).unwrap();
    users.create(TelegramId(2), Role::Moderator, None, None).unwrap();
    let mut settings = ScoreboardSettings::disabled();
    let reply = |o: ScoreboardsOrder| match o {
        ScoreboardsOrder::Reply(t) => t,
        ScoreboardsOrder::RunNow => "RUN".to_string(),
    };
    assert_eq!(reply(scoreboards_command(TelegramId(2), "6", &users, &mut settings)), "You are not allowed to do that.");
    assert_eq!(settings.interval_hours, 0);
    assert_eq!(
        reply(scoreboards_command(TelegramId(1), " 6 ", &users, &mut settings)),
        "Scoreboards every 6h. Next round fires within a minute of becoming due (first one immediately if none was ever posted)."
    );
    assert_eq!(settings.interval_hours, 6);
    assert_eq!(reply(scoreboards_command(TelegramId(1), "NOW", &users, &mut settings)), "RUN");
    assert_eq!(reply(scoreboards_command(TelegramId(1), "off", &users, &mut settings)), "Recurring scoreboards disabled.");
    assert_eq!(settings.interval_hours, 0);
    assert_eq!(reply(scoreboards_command(TelegramId(1), "soon", &users, &mut settings)), "Usage: /scoreboards <hours|now|off>");
    assert_eq!(reply(scoreboards_command(TelegramId(1), "4294967296", &users, &mut settings)), "Usage: /scoreboards <hours|now|off>");
}

#[test]
fn a_delivery_is_recorded_and_the_post_marked() {
    let mut posts = InMemoryPostRepository::new();
    let post = posts
        .create("https://e621.net/posts/9".to_string(), vec![], vec![], None, 0, PostStatus::Accepted)
        .unwrap();
    let mut publications = InMemoryPublicationRepository::new();
    assert!(record_delivery(post.id, PublishReceipt { chat_id: -100, message_id: 7 }, 42, &mut publications, &mut posts).is_ok());
    assert_eq!(posts.find_by_id(post.id).unwrap().last_posted, Some(42));
    let delivered = publications.list_for_chat(-100);
    assert_eq!(delivered.len(), 1);
    assert_eq!(delivered[0].message_id, 7);
    assert_eq!(delivered[0].published_at, 42);
    assert!(record_delivery(yiffy_corner::post::PostId(99), PublishReceipt { chat_id: -100, message_id: 8 }, 43, &mut publications, &mut posts).is_err());
    assert_eq!(publications.list_for_chat(-100).len(), 2);
}
