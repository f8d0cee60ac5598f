use yiffy_corner::bot::browse_args;
use yiffy_corner::callback::{callback_data, parse_callback, Callback, ModVerb};
use yiffy_corner::e621::{browse_preview, E621Pool, E621PoolCategory, E621PostMetadata};
use yiffy_corner::keyboard::{
    browse_keyboard, browse_more_keyboard, pool_choice_keyboard, report_keyboard, review_keyboard, Button, Press,
};
use yiffy_corner::links::preferred_artist_source;
use yiffy_corner::post::PostId;
use yiffy_corner::publisher::ResolvedMedia;

fn s(x: &str) -> String {
    x.to_string()
}

/// A keyboard as (label, callback data or url) pairs.
fn flat(rows: &[Vec<Button>]) -> Vec<Vec<(String, String)>> {
    rows.iter()
        .map(|row| {
            row.iter()
                .map(|b| {
                    let target = match &b.press {
                        Press::Callback(c) => callback_data(*c),
                        Press::Url(u) => format!("url {u}"),
                    };
                    (b.label.clone(), target)
                })
                .collect()
        })
        .collect()
}

fn pairs(rows: &[&[(&str, &str)]]) -> Vec<Vec<(String, String)>> {
    rows.iter().map(|r| r.iter().map(|(a, b)| (s(a), s(b))).collect()).collect()
}

#[test]
fn review_buttons_without_pools() {
    let rows = review_keyboard(PostId(7), 0);
    assert_eq!(
        flat(&rows),
        pairs(&[
            &[("✅ Approve", "mod:approve:7"), ("❌ Reject", "mod:reject:7")],
            &[("🏷 Accept with more tags", "mod:addtags:7"), ("📝 Reject with reason", "mod:reason:7")],
            &[("✏️ Request changes", "mod:changes:7")],
        ])
    );
}

#[test]
fn review_buttons_offer_the_pools() {
    let one = review_keyboard(PostId(7), 1);
    assert_eq!(flat(&one)[3], vec![(s("📚 Part of a pool — submit it all?"), s("pool:list:7"))]);
    let three = review_keyboard(PostId(7), 3);
    assert_eq!(flat(&three)[3], vec![(s("📚 In 3 pools — submit one?"), s("pool:list:7"))]);
}

#[test]
fn every_button_routes_back_to_its_action() {
    let mut all = review_keyboard(PostId(9), 2);
    all.extend(report_keyboard(PostId(9)));
    all.extend(browse_more_keyboard());
    for row in &all {
        for b in row {
            if let Press::Callback(c) = &b.press {
                assert_eq!(parse_callback(&callback_data(*c)), Some(*c));
            }
        }
    }
    assert!(matches!(all[0][0].press, Press::Callback(Callback::Moderate(ModVerb::Approve, Some(PostId(9))))));
}

fn pool(id: u64, name: &str, category: E621PoolCategory, members: usize, active: bool) -> E621Pool {
    E621Pool { id, name: s(name), category, post_ids: (0..members as u64).collect(), is_active: active }
}

#[test]
fn the_pool_chooser_lists_pools_and_goes_back() {
    let pools = vec![
        pool(11, "Cool_Comic", E621PoolCategory::Series, 12, true),
        pool(12, "A_very_long_collection_name_that_keeps_going", E621PoolCategory::Collection, 400, false),
    ];
    let rows = pool_choice_keyboard(PostId(5), &pools);
    assert_eq!(
        flat(&rows),
        pairs(&[
            &[("📖 Cool Comic · 12 posts", "pool:pick:5:11"), ("↗", "url https://e621.net/pools/11")],
            &[
                ("🗂 A very long collection name t… · 400 posts · inactive", "pool:pick:5:12"),
                ("↗", "url https://e621.net/pools/12"),
            ],
            &[("◀ Back", "pool:back:5:2")],
        ])
    );
}

#[test]
fn the_pool_chooser_shows_at_most_eight() {
    let pools: Vec<E621Pool> = (0..10).map(|i| pool(i, "p", E621PoolCategory::Series, 1, true)).collect();
    let rows = pool_choice_keyboard(PostId(1), &pools);
    assert_eq!(rows.len(), 9);
    assert_eq!(flat(&rows)[8], vec![(s("◀ Back"), s("pool:back:1:10"))]);
}

#[test]
fn report_buttons() {
    assert_eq!(
        flat(&report_keyboard(PostId(3))),
        pairs(&[&[("🗑 Take down", "repmod:take:3"), ("✅ Dismiss", "repmod:dismiss:3")]])
    );
}

#[test]
fn the_artist_source_is_picked_by_host_preference() {
    let sources = vec![
        s("not a url"),
        s("https://www.deviantart.com/someone/art/1"),
        s("https://www.furaffinity.net/view/2/"),
    ];
    assert_eq!(preferred_artist_source(&sources), Some(s("https://www.furaffinity.net/view/2/")));
    let others = vec![s("https://example.org/a"), s("https://example.com/b")];
    assert_eq!(preferred_artist_source(&others), Some(s("https://example.org/a")));
    assert_eq!(preferred_artist_source(&vec![s("nope")]), None);
}

#[test]
fn browse_buttons_fall_back_to_e621() {
    let rows = browse_keyboard(42, "https://e621.net/posts/42", &vec![]);
    assert_eq!(
        flat(&rows),
        pairs(&[
            &[("Send", "browse:send:42")],
            &[("Check e621 Src", "url https://e621.net/posts/42"), ("Check src", "url https://e621.net/posts/42")],
            &[("Erase", "browse:erase"), ("⏭ Skip forever", "browse:skip:42")],
        ])
    );
    let with_src = browse_keyboard(42, "https://e621.net/posts/42", &vec![s("https://x.com/artist/status/1")]);
    assert_eq!(flat(&with_src)[1][1], (s("Check src"), s("url https://x.com/artist/status/1")));
    assert_eq!(flat(&browse_more_keyboard()), pairs(&[&[("More ➡", "brmore")]]));
}

#[test]
fn browse_reads_an_optional_count() {
    let (n, tags) = browse_args("12 wolf male");
    assert_eq!((n, tags), (12, vec![s("wolf"), s("male")]));
    let (n, tags) = browse_args("wolf");
    assert_eq!((n, tags), (5, vec![s("wolf")]));
    let (n, tags) = browse_args("30 wolf");
    assert_eq!((n, tags), (5, vec![s("30"), s("wolf")]));
    let (n, tags) = browse_args("");
    assert_eq!((n, tags), (5, vec![]));
}

fn meta(file: &str, mp4: Option<&str>) -> E621PostMetadata {
    E621PostMetadata {
        source: s("https://e621.net/posts/1"),
        tags: vec![],
        artists: vec![],
        file_url: s(file),
        mp4_url: mp4.map(s),
        preview_url: s("https://static1.e621.net/data/preview/a.jpg"),
        artist_sources: vec![],
        pools: vec![],
    }
}

#[test]
fn browse_previews_follow_the_media() {
    assert_eq!(
        browse_preview(&meta("https://static1.e621.net/data/a.gif", None)),
        ResolvedMedia::Animation(s("https://static1.e621.net/data/a.gif"))
    );
    assert_eq!(
        browse_preview(&meta("https://static1.e621.net/data/a.webm", Some("https://static1.e621.net/data/a.mp4"))),
        ResolvedMedia::Video(s("https://static1.e621.net/data/a.mp4"))
    );
    assert_eq!(
        browse_preview(&meta("https://static1.e621.net/data/a.webm", None)),
        ResolvedMedia::Photo(s("https://static1.e621.net/data/preview/a.jpg"))
    );
    assert_eq!(
        browse_preview(&meta("https://static1.e621.net/data/a.png", None)),
        ResolvedMedia::Photo(s("https://static1.e621.net/data/preview/a.jpg"))
    );
}
