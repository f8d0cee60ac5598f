use yiffy_corner::e621::{
    e621_media, extract_post_id, in_pool_order, metadata_from_raw, pool_paging_done, post_id_from_segments,
    resolve_target, resolved_media, E621PoolCategory, E621PostMetadata, FetchError, MediaResolveError, RawAlternates, RawPool, RawPost, RawRendition, RawSample, RawTags,
};
use yiffy_corner::publisher::ResolvedMedia;

fn s(x: &str) -> String {
    x.to_string()
}

fn no_tags() -> RawTags {
    RawTags {
        general: vec![],
        species: vec![],
        character: vec![],
        copyright: vec![],
        artist: vec![],
        meta: vec![],
        lore: vec![],
        invalid: vec![],
    }
}

fn raw(file: Option<&str>, sample: Option<RawSample>, tags: RawTags) -> RawPost {
    RawPost {
        id: 1,
        file_url: file.map(s),
        preview_url: None,
        sample,
        tags,
        sources: vec![],
        pools: vec![],
    }
}

fn webm_sample(variant_size: u64) -> RawSample {
    RawSample {
        url: None,
        alternates: Some(RawAlternates {
            variants: Some(vec![(
                s("mp4"),
                RawRendition {
                    url: Some(s("https://static1.e621.net/data/sample/a_alt.mp4")),
                    size: Some(variant_size),
                },
            )]),
            samples: Some(vec![(
                s("720p"),
                RawRendition {
                    url: Some(s("https://static1.e621.net/data/sample/a_720p.mp4")),
                    size: Some(4_000_000),
                },
            )]),
        }),
    }
}

#[test]
fn extract_post_id_from_standard_url() {
    assert_eq!(extract_post_id("https://e621.net/posts/12345"), Some(12345));
}

#[test]
fn extract_post_id_from_show_url() {
    assert_eq!(extract_post_id("https://e621.net/posts/12345/show"), Some(12345));
}

#[test]
fn extract_post_id_returns_none_for_non_post_url() {
    assert_eq!(extract_post_id("https://e621.net/"), None);
}

#[test]
fn extract_post_id_of_unparsable_text_is_none() {
    assert_eq!(extract_post_id("not a url"), None);
    assert_eq!(extract_post_id("https://e621.net/posts/abc"), None);
}

#[test]
fn post_id_follows_the_first_posts_segment() {
    let segs = vec![s("posts"), s("77"), s("posts"), s("88")];
    assert_eq!(post_id_from_segments(&segs), Some(77));
    assert_eq!(post_id_from_segments(&vec![s("posts")]), None);
    assert_eq!(post_id_from_segments(&vec![s("pools"), s("5")]), None);
}

#[test]
fn null_file_url_is_unavailable_not_parse_error() {
    let r = metadata_from_raw(raw(None, None, no_tags()));
    assert!(matches!(r, Err(FetchError::Unavailable(_))));
}

#[test]
fn artist_bucket_markers_are_not_artists() {
    let mut tags = no_tags();
    tags.artist = vec![s("coolwolf"), s("conditional_dnp"), s("Unknown_Artist")];
    tags.general = vec![s("wolf")];
    let metadata =
        metadata_from_raw(raw(Some("https://static1.e621.net/data/a.png"), None, tags)).unwrap();
    assert_eq!(metadata.artists, vec![s("coolwolf")]);
    // The full tag list still carries everything (policy checks need it).
    assert!(metadata.tags.contains(&s("conditional_dnp")));
    assert!(metadata.tags.contains(&s("wolf")));
    assert_eq!(metadata.source, "https://e621.net/posts/1");
    assert_eq!(metadata.file_url, "https://static1.e621.net/data/a.png");
    // No sample and no preview: the file itself previews.
    assert_eq!(metadata.preview_url, "https://static1.e621.net/data/a.png");
    assert_eq!(metadata.mp4_url, None);
}

#[test]
fn webm_posts_expose_the_mp4_rendition() {
    let metadata = metadata_from_raw(raw(
        Some("https://static1.e621.net/data/a.webm"),
        Some(webm_sample(7_000_000)),
        no_tags(),
    ))
    .unwrap();
    assert_eq!(
        metadata.mp4_url.unwrap(),
        "https://static1.e621.net/data/sample/a_alt.mp4"
    );
}

#[test]
fn oversized_mp4_variant_falls_back_to_smaller_sample() {
    let metadata = metadata_from_raw(raw(
        Some("https://static1.e621.net/data/a.webm"),
        Some(webm_sample(25_000_000)),
        no_tags(),
    ))
    .unwrap();
    assert_eq!(
        metadata.mp4_url.unwrap(),
        "https://static1.e621.net/data/sample/a_720p.mp4"
    );
}

#[test]
fn media_kind_follows_file_extension() {
    assert!(matches!(
        ResolvedMedia::classify(s("https://static1.e621.net/data/a.png")),
        ResolvedMedia::Photo(_)
    ));
    assert!(matches!(
        ResolvedMedia::classify(s("https://static1.e621.net/data/a.webm")),
        ResolvedMedia::Video(_)
    ));
    assert!(matches!(
        ResolvedMedia::classify(s("https://static1.e621.net/data/a.gif")),
        ResolvedMedia::Animation(_)
    ));
}

#[test]
fn media_kind_ignores_case_and_query() {
    assert!(matches!(
        ResolvedMedia::classify(s("https://static1.e621.net/data/A.MP4?x=1")),
        ResolvedMedia::Video(_)
    ));
    assert!(matches!(
        ResolvedMedia::classify(s("https://static1.e621.net/data/a.GIF#frag")),
        ResolvedMedia::Animation(_)
    ));
}

#[test]
fn pool_pages_come_back_in_member_order() {
    let post_ids = vec![3u64, 1, 2];
    let fetched_ids = vec![1u64, 2, 3];
    let mut fetched = Vec::new();
    for id in &fetched_ids {
        let mut p = raw(Some("https://static1.e621.net/data/a.png"), None, no_tags());
        p.id = *id;
        fetched.push(metadata_from_raw(p).unwrap());
    }
    let ordered = in_pool_order(&post_ids, &fetched_ids, &fetched);
    let sources: Vec<String> = ordered.iter().map(|m| m.source.clone()).collect();
    assert_eq!(
        sources,
        vec![
            s("https://e621.net/posts/3"),
            s("https://e621.net/posts/1"),
            s("https://e621.net/posts/2"),
        ]
    );
}

#[test]
fn pool_paging_stops_on_a_short_page_or_when_complete() {
    assert!(pool_paging_done(10, 320, 10, 50));
    assert!(pool_paging_done(320, 320, 50, 50));
    assert!(!pool_paging_done(320, 320, 320, 500));
}

#[test]
fn raw_pool_reads_its_category() {
    let p = RawPool { id: 7, name: s("Cool_Comic"), category: s("series"), post_ids: vec![1, 2], is_active: true }
        .into_pool();
    assert_eq!(p.category, E621PoolCategory::Series);
    assert_eq!(p.display_name(), "Cool Comic");
    assert_eq!(p.page_url(), "https://e621.net/pools/7");
    let c = RawPool { id: 8, name: s("x"), category: s("collection"), post_ids: vec![], is_active: false }
        .into_pool();
    assert_eq!(c.category, E621PoolCategory::Collection);
}

fn meta(file: &str, mp4: Option<&str>) -> E621PostMetadata {
    E621PostMetadata {
        source: s("https://e621.net/posts/1"),
        tags: vec![],
        artists: vec![],
        file_url: s(file),
        mp4_url: mp4.map(s),
        preview_url: s(""),
        artist_sources: vec![],
        pools: vec![],
    }
}

#[test]
fn resolve_rejects_non_e621_sources() {
    match resolve_target("https://x.com/a/status/1") {
        Err(MediaResolveError::Unsupported(src)) => assert_eq!(src, "https://x.com/a/status/1"),
        other => panic!("unexpected {:?}", other),
    }
}

#[test]
fn resolve_reads_the_post_id_of_an_e621_page() {
    assert!(matches!(resolve_target("https://e621.net/posts/4242"), Ok(4242)));
    match resolve_target("https://e621.net/pools/7") {
        Err(MediaResolveError::NotFound(src)) => assert_eq!(src, "https://e621.net/pools/7"),
        other => panic!("unexpected {:?}", other),
    }
}

#[test]
fn webm_goes_out_as_its_mp4_rendition() {
    let m = meta("https://static1.e621.net/data/a.webm", Some("https://static1.e621.net/data/sample/a.mp4"));
    assert_eq!(e621_media(&m), ResolvedMedia::Video(s("https://static1.e621.net/data/sample/a.mp4")));
    let bare = meta("https://static1.e621.net/data/a.webm", None);
    assert_eq!(e621_media(&bare), ResolvedMedia::Video(s("https://static1.e621.net/data/a.webm")));
}

#[test]
fn other_files_go_out_as_they_are() {
    let mp4 = meta("https://static1.e621.net/data/a.mp4", Some("https://static1.e621.net/data/sample/b.mp4"));
    assert_eq!(e621_media(&mp4), ResolvedMedia::Video(s("https://static1.e621.net/data/a.mp4")));
    let gif = meta("https://static1.e621.net/data/a.gif", None);
    assert_eq!(e621_media(&gif), ResolvedMedia::Animation(s("https://static1.e621.net/data/a.gif")));
    let png = meta("https://static1.e621.net/data/a.png", None);
    assert_eq!(e621_media(&png), ResolvedMedia::Photo(s("https://static1.e621.net/data/a.png")));
}

#[test]
fn fetch_failures_map_to_resolve_errors() {
    let src = "https://e621.net/posts/9";
    assert!(matches!(resolved_media(src, Err(FetchError::NotFound(s("gone")))), Err(MediaResolveError::NotFound(x)) if x == src));
    assert!(matches!(resolved_media(src, Err(FetchError::Unavailable(s("hidden")))), Err(MediaResolveError::NotFound(x)) if x == src));
    assert!(matches!(resolved_media(src, Err(FetchError::RateLimit)), Err(MediaResolveError::Network(_))));
    assert!(matches!(resolved_media(src, Err(FetchError::Network(s("down")))), Err(MediaResolveError::Network(x)) if x == "down"));
    assert!(matches!(resolved_media(src, Err(FetchError::Parse(s("bad")))), Err(MediaResolveError::Parse(x)) if x == "bad"));
    let ok = resolved_media(src, Ok(meta("https://static1.e621.net/data/a.jpg", None))).unwrap();
    assert_eq!(ok, ResolvedMedia::Photo(s("https://static1.e621.net/data/a.jpg")));
}
