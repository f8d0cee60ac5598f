use yiffy_corner::post::{Post, PostId, PostStatus};
use yiffy_corner::poster::{InMemoryPosterRepository, PostInterval, PosterId, PublishBlock};
use yiffy_corner::e621::MediaResolveError;
use yiffy_corner::publisher::{branded_caption, delivery_of, link_text, Delivery, PublishReceipt, ResolvedMedia};
use yiffy_corner::scheduler::{
    build_caption, content_warnings, fire_resolution, fire_start, fire_step, needs_spoiler, posters_due,
    publication_of, publish_code, publish_item, spoiler_policy, FireAction, FireEvent,
    ResolveOutcome, TickError, MAX_DEAD_SKIPS,
};
use yiffy_corner::user::{InMemoryUserRepository, Role, TelegramId, UserId};

fn tags(names: &[&str]) -> Vec<String> {
    names.iter().map(|n| n.to_string()).collect()
}

fn make_post(id: u64, position: u64) -> Post {
    Post {
        id: PostId(id),
        source: format!("https://e621.net/posts/{id}"),
        status: PostStatus::Accepted,
        tags: vec![],
        artists: vec![],
        feed_position: Some(position),
        last_posted: None,
        submitted_by: None,
        submitted_at: 0,
        moderated_by: None,
        moderated_at: None,
        phash: None,
    }
}

fn photo() -> ResolvedMedia {
    ResolvedMedia::Photo("https://x/p.png".to_string())
}

#[test]
fn spoiler_rule_matches_listed_and_cw_tags() {
    let listed = tags(&["watersports", "questionable_consent"]);
    assert!(needs_spoiler(&tags(&["wolf", "watersports"]), &listed));
    assert!(needs_spoiler(&tags(&["cw"]), &[]));
    assert!(needs_spoiler(&tags(&["cw_blood"]), &[]));
    assert!(needs_spoiler(&tags(&["CW:knife"]), &[]));
    assert!(!needs_spoiler(&tags(&["wolf", "male"]), &listed));
    // 'cwhatever' must not trip the prefix rule.
    assert!(!needs_spoiler(&tags(&["cwhatever"]), &[]));
}

#[test]
fn content_warnings_strip_the_cw_prefix_and_name_listed_tags() {
    let listed = tags(&["questionable_consent"]);
    let labels = content_warnings(
        &tags(&[
            "wolf",
            "cw_blood_and_gore",
            "CW:knife",
            "questionable_consent",
            "cw",                // blurs, but names nothing
            "cw_blood_and_gore", // duplicate label collapses
        ]),
        &listed,
    );
    assert_eq!(labels, vec!["blood and gore", "knife", "questionable consent"]);
    assert!(content_warnings(&tags(&["wolf"]), &listed).is_empty());
}

#[test]
fn publish_code_is_fixed_size_and_deterministic() {
    let post = make_post(1, 1);
    let a = publish_code(&post, PosterId(1));
    let b = publish_code(&post, PosterId(1));
    let other_poster = publish_code(&post, PosterId(2));
    assert_eq!(a, b);
    assert_eq!(a.len(), 8);
    assert_ne!(a, other_poster, "same source, different consumer → different code");
}

#[test]
fn publish_code_is_fnv1a_in_base36() {
    // FNV-1a over "https://e621.net/posts/1" followed by "1", then eight
    // base-36 digits, least significant first.
    let mut hash: u64 = 0xcbf29ce484222325;
    for byte in "https://e621.net/posts/11".bytes() {
        hash ^= byte as u64;
        hash = hash.wrapping_mul(0x100000001b3);
    }
    let alphabet = b"0123456789ABCDEFGHIJKLMNOPQRSTUVWXYZ";
    let mut expected = String::new();
    for _ in 0..8 {
        expected.push(alphabet[(hash % 36) as usize] as char);
        hash /= 36;
    }
    assert_eq!(publish_code(&make_post(1, 1), PosterId(1)), expected);
}

#[test]
fn caption_has_code_attribution_forward_credit_and_links() {
    let mut users = InMemoryUserRepository::new();
    let submitter = users
        .create(TelegramId(42), Role::User, None, Some("Ziel <3".to_string()))
        .ok()
        .unwrap();

    let mut post = make_post(100, 1);
    post.source = "https://t.me/somechannel/42".to_string();
    post.submitted_by = Some(submitter.id);

    let caption = build_caption(&post, PosterId(1), &users, "testbot", &photo(), &vec![]);
    let lines: Vec<&str> = caption.lines().collect();
    assert!(lines[0].starts_with("<code>#"), "caption: {caption}");
    assert_eq!(lines[0].len(), "<code>#XXXXXXXX</code>".len());
    assert_eq!(lines[1], "Submitted by Ziel &lt;3");
    assert_eq!(lines[2], "Forwarded from channel: @somechannel");
    assert!(lines[3].contains("<a href=\"https://t.me/somechannel/42\">Source</a>"));
    assert!(lines[3].contains("https://t.me/testbot?start=more_100\">More like this</a>"));
    assert!(lines[3].contains("https://t.me/testbot?start=report_100\">Report</a>"));
}

#[test]
fn caption_names_the_content_warnings() {
    let users = InMemoryUserRepository::new();
    let caption = build_caption(
        &make_post(100, 1),
        PosterId(1),
        &users,
        "testbot",
        &photo(),
        &vec!["blood and gore".to_string(), "knife <3".to_string()],
    );
    let lines: Vec<&str> = caption.lines().collect();
    assert_eq!(lines[1], "⚠️ CW: blood and gore, knife &lt;3");
}

#[test]
fn admin_added_post_has_no_attribution_line() {
    let users = InMemoryUserRepository::new();
    let caption = build_caption(&make_post(100, 1), PosterId(1), &users, "testbot", &photo(), &vec![]);
    assert!(!caption.contains("Submitted by"), "caption: {caption}");
    assert!(caption.contains("e621.net"), "caption: {caption}");
}

#[test]
fn video_media_gets_the_video_hashtag_and_artists_are_credited() {
    let users = InMemoryUserRepository::new();
    let mut post = make_post(100, 1);
    post.artists = tags(&["coolwolf", "otherfox"]);
    let video = ResolvedMedia::Video("https://x/v.webm".to_string());
    let caption = build_caption(&post, PosterId(1), &users, "testbot", &video, &vec![]);
    let lines: Vec<&str> = caption.lines().collect();
    assert!(lines[0].ends_with(" #video"), "caption: {caption}");
    assert_eq!(lines[1], "By coolwolf, otherfox");

    let caption = build_caption(&post, PosterId(1), &users, "testbot", &photo(), &vec![]);
    assert!(!caption.contains("#video"), "caption: {caption}");
}

#[test]
fn caption_credits_unknown_and_unnamed_submitters_by_id() {
    let mut users = InMemoryUserRepository::new();
    let unnamed = users.create(TelegramId(77), Role::User, None, None).ok().unwrap();
    let mut post = make_post(5, 1);
    post.submitted_by = Some(unnamed.id);
    let caption = build_caption(&post, PosterId(3), &users, "bot", &photo(), &vec![]);
    assert_eq!(caption.lines().nth(1), Some("Submitted by user 77"));

    post.submitted_by = Some(UserId(9));
    let caption = build_caption(&post, PosterId(3), &users, "bot", &photo(), &vec![]);
    assert_eq!(caption.lines().nth(1), Some("Submitted by user 9"));
}

#[test]
fn caption_is_exactly_the_documented_lines() {
    let users = InMemoryUserRepository::new();
    let post = make_post(7, 1);
    let code = publish_code(&post, PosterId(2));
    let caption = build_caption(&post, PosterId(2), &users, "bot", &photo(), &vec![]);
    assert_eq!(
        caption,
        format!(
            "<code>#{code}</code>\n<a href=\"https://e621.net/posts/7\">Source</a> · \
             <a href=\"https://t.me/bot?start=more_7\">More like this</a> · \
             <a href=\"https://t.me/bot?start=report_7\">Report</a>"
        )
    );
}

#[test]
fn does_not_fire_off_interval() {
    let mut posters = InMemoryPosterRepository::new();
    posters
        .create(vec![], vec![], PostInterval::new(5).ok().unwrap(), 0)
        .ok()
        .unwrap();
    let all = posters.list_all();
    assert!(posters_due(7, &all).ok().unwrap().is_empty());
    assert_eq!(posters_due(5, &all).ok().unwrap().len(), 1);
    assert_eq!(posters_due(0, &all).ok().unwrap().len(), 1);
}

#[test]
fn new_poster_is_picked_up_without_restart() {
    let mut posters = InMemoryPosterRepository::new();
    assert!(posters_due(5, &posters.list_all()).ok().unwrap().is_empty());
    let id = posters
        .create(vec![], vec![], PostInterval::new(5).ok().unwrap(), 0)
        .ok()
        .unwrap()
        .id;
    let due = posters_due(10, &posters.list_all()).ok().unwrap();
    assert_eq!(due.len(), 1);
    assert_eq!(due[0].id, id);
}

#[test]
fn tick_minute_outside_the_hour_is_refused() {
    assert!(matches!(posters_due(60, &vec![]), Err(TickError::Block(_))));
    assert!(PublishBlock::try_from_minute(59).is_ok());
    assert!(PublishBlock::try_from_minute(60).is_err());
}

#[test]
fn intervals_must_divide_the_hour() {
    for ok in [1u8, 2, 3, 4, 5, 6, 10, 12, 15, 20, 30, 60] {
        assert!(PostInterval::new(ok).is_ok(), "{ok}");
    }
    for bad in [0u8, 7, 8, 9, 11, 25, 45, 61, 120] {
        assert!(PostInterval::new(bad).is_err(), "{bad}");
    }
}

#[test]
fn publishes_match_and_advances_cursor() {
    let (state, action) = fire_start(0);
    assert_eq!(action, FireAction::Scan);
    let (state, action) = fire_step(state, FireEvent::Picked { found: true, advance_to: 7 });
    assert_eq!(action, FireAction::Resolve);
    let (state, action) = fire_step(state, FireEvent::Resolved(ResolveOutcome::Resolved));
    assert_eq!(action, FireAction::Publish);
    let (_, action) = fire_step(state, FireEvent::Published(true));
    assert_eq!(action, FireAction::SetCursor(7));
}

#[test]
fn dead_entry_is_shelved_and_the_next_one_publishes() {
    let (state, _) = fire_start(0);
    let (state, _) = fire_step(state, FireEvent::Picked { found: true, advance_to: 7 });
    let (state, action) = fire_step(state, FireEvent::Resolved(ResolveOutcome::Gone));
    assert_eq!(action, FireAction::Shelve);
    let (state, action) = fire_step(state, FireEvent::Shelved(true));
    assert_eq!(action, FireAction::Scan);
    let (state, _) = fire_step(state, FireEvent::Picked { found: true, advance_to: 8 });
    let (state, _) = fire_step(state, FireEvent::Resolved(ResolveOutcome::Resolved));
    let (_, action) = fire_step(state, FireEvent::Published(true));
    assert_eq!(action, FireAction::SetCursor(8));
}

#[test]
fn dead_skips_are_bounded_per_fire() {
    let (mut state, _) = fire_start(3);
    for _ in 0..MAX_DEAD_SKIPS {
        let (s, _) = fire_step(state, FireEvent::Picked { found: true, advance_to: 9 });
        let (s, action) = fire_step(s, FireEvent::Resolved(ResolveOutcome::Gone));
        assert_eq!(action, FireAction::Shelve);
        state = s;
    }
    let (s, _) = fire_step(state, FireEvent::Picked { found: true, advance_to: 9 });
    let (_, action) = fire_step(s, FireEvent::Resolved(ResolveOutcome::Gone));
    assert_eq!(action, FireAction::Stop);
}

#[test]
fn empty_scan_advances_cursor_without_publish() {
    let (state, _) = fire_start(0);
    let (_, action) = fire_step(state, FireEvent::Picked { found: false, advance_to: 9 });
    assert_eq!(action, FireAction::SetCursor(9));
    let (state, _) = fire_start(9);
    let (_, action) = fire_step(state, FireEvent::Picked { found: false, advance_to: 9 });
    assert_eq!(action, FireAction::Stop);
}

#[test]
fn publish_failure_keeps_cursor_for_retry() {
    let (state, _) = fire_start(0);
    let (state, _) = fire_step(state, FireEvent::Picked { found: true, advance_to: 7 });
    let (state, _) = fire_step(state, FireEvent::Resolved(ResolveOutcome::Resolved));
    let (_, action) = fire_step(state, FireEvent::Published(false));
    assert_eq!(action, FireAction::Stop);
    let (state, _) = fire_start(0);
    let (state, _) = fire_step(state, FireEvent::Picked { found: true, advance_to: 7 });
    let (_, action) = fire_step(state, FireEvent::Resolved(ResolveOutcome::Failed));
    assert_eq!(action, FireAction::Stop);
}

#[test]
fn spoiler_list_failure_publishes_unspoilered() {
    let post_tags = tags(&["cw_gore"]);
    let (blur, labels) = spoiler_policy(&post_tags, None);
    assert!(!blur);
    assert!(labels.is_empty());
    let listed = tags(&[]);
    let (blur, labels) = spoiler_policy(&post_tags, Some(&listed));
    assert!(blur);
    assert_eq!(labels, vec!["gore"]);
}

#[test]
fn publish_item_carries_the_post_id_and_publication_records_the_receipt() {
    let post = make_post(100, 7);
    let item = publish_item(&post, photo(), "c".to_string(), true);
    assert_eq!(item.post_id, PostId(100));
    assert_eq!(item.caption.as_deref(), Some("c"));
    assert!(item.spoiler);
    let p = publication_of(PostId(100), PublishReceipt { chat_id: -100, message_id: 555 }, 42);
    assert_eq!(p.chat_id, -100);
    assert_eq!(p.message_id, 555);
    assert_eq!(p.published_at, 42);
}

#[test]
fn the_channel_handle_closes_the_caption() {
    assert_eq!(branded_caption(&Some("hi".to_string()), Some("chan")), Some("hi\n\n@chan".to_string()));
    assert_eq!(branded_caption(&None, Some("chan")), Some("@chan".to_string()));
    assert_eq!(branded_caption(&Some("hi".to_string()), None), Some("hi".to_string()));
    assert_eq!(branded_caption(&None, None), None);
}

#[test]
fn each_media_kind_goes_out_its_own_way() {
    let media = |method: &str, field: &str| Delivery::Media {
        method: method.to_string(),
        field: field.to_string(),
        url: "https://x/a".to_string(),
    };
    assert_eq!(delivery_of(&ResolvedMedia::Photo("https://x/a".to_string())), media("sendPhoto", "photo"));
    assert_eq!(delivery_of(&ResolvedMedia::Video("https://x/a".to_string())), media("sendVideo", "video"));
    assert_eq!(delivery_of(&ResolvedMedia::Animation("https://x/a".to_string())), media("sendAnimation", "animation"));
    assert_eq!(delivery_of(&ResolvedMedia::Link("https://x/a".to_string())), Delivery::Link("https://x/a".to_string()));
    assert_eq!(
        delivery_of(&ResolvedMedia::TelegramCopy { origin_chat_id: -5, origin_message_id: 9 }),
        Delivery::Copy { from_chat_id: -5, message_id: 9 }
    );
    assert_eq!(link_text(&None, "https://x/a"), "https://x/a");
    assert_eq!(link_text(&Some("cap".to_string()), "https://x/a"), "cap");
}

#[test]
fn a_fire_reads_the_resolution() {
    let photo = ResolvedMedia::Photo("https://x/a.png".to_string());
    assert_eq!(fire_resolution("s", Ok(photo.clone())), (ResolveOutcome::Resolved, Some(photo)));
    assert_eq!(
        fire_resolution("https://x.com/a/status/1", Err(MediaResolveError::Unsupported("x".to_string()))),
        (ResolveOutcome::Resolved, Some(ResolvedMedia::Link("https://x.com/a/status/1".to_string())))
    );
    assert_eq!(fire_resolution("s", Err(MediaResolveError::NotFound("s".to_string()))), (ResolveOutcome::Gone, None));
    assert_eq!(fire_resolution("s", Err(MediaResolveError::Network("down".to_string()))), (ResolveOutcome::Failed, None));
}
