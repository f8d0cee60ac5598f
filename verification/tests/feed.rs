use yiffy_corner::feed::{next_post, refusal_for, Refusal};
use yiffy_corner::post::{InMemoryPostRepository, PostStatus};
use yiffy_corner::poster::{InMemoryPosterRepository, PostInterval, Poster};
use yiffy_corner::tag_rule::{TagLiteral, TagRule, TagTerm};

const NOW: i64 = 1_700_000_000_000;

fn s(x: &str) -> String {
    x.to_string()
}

fn tags(ts: &[&str]) -> Vec<String> {
    ts.iter().map(|t| s(t)).collect()
}

fn has(t: &str) -> TagTerm {
    TagTerm(vec![TagLiteral::Has(s(t))])
}

fn feed(entries: &[&[&str]]) -> InMemoryPostRepository {
    let mut posts = InMemoryPostRepository::new();
    for (i, t) in entries.iter().enumerate() {
        let p = posts
            .create(format!("https://e621.net/posts/{}", i + 1), tags(t), vec![], None, NOW, PostStatus::AwaitingModeration)
            .unwrap();
        posts.accept_into_feed(p.id).unwrap();
    }
    posts
}

fn poster(subscribed: Vec<TagTerm>, forbidden: &[&str], cursor: u64) -> Poster {
    let mut repo = InMemoryPosterRepository::new();
    repo.create(subscribed, tags(forbidden), PostInterval::new(5).unwrap(), cursor).unwrap()
}

#[test]
fn the_first_matching_entry_is_picked_and_the_cursor_moves_to_it() {
    let posts = feed(&[&["fox"], &["wolf", "gore"], &["wolf"], &["wolf"]]);
    let p = poster(vec![has("wolf")], &["gore"], 0);
    let pick = next_post(&posts, &p, &[]);
    assert_eq!(pick.post.map(|q| q.feed_position), Some(Some(3)));
    assert_eq!(pick.advance_to, 3);
}

#[test]
fn a_miss_moves_the_cursor_to_the_feed_end() {
    let posts = feed(&[&["fox"], &["cat"]]);
    let p = poster(vec![has("wolf")], &[], 0);
    let pick = next_post(&posts, &p, &[]);
    assert!(pick.post.is_none());
    assert_eq!(pick.advance_to, 2);
}

#[test]
fn a_poster_at_the_feed_end_stays_quiet() {
    let posts = feed(&[&["wolf"], &["wolf"]]);
    let p = poster(vec![], &[], 2);
    let pick = next_post(&posts, &p, &[]);
    assert!(pick.post.is_none());
    assert_eq!(pick.advance_to, 2);
}

#[test]
fn consecutive_fires_never_repeat_an_entry() {
    let posts = feed(&[&["wolf"], &["wolf"], &["wolf"]]);
    let mut cursor = 0;
    let mut seen = Vec::new();
    loop {
        let p = poster(vec![], &[], cursor);
        let pick = next_post(&posts, &p, &[]);
        match pick.post {
            Some(q) => seen.push(q.feed_position.unwrap()),
            None => break,
        }
        cursor = pick.advance_to;
    }
    assert_eq!(seen, vec![1, 2, 3]);
}

#[test]
fn globally_forbidden_entries_are_skipped() {
    let posts = feed(&[&["wolf", "scat"], &["wolf"]]);
    let p = poster(vec![has("wolf")], &[], 0);
    let pick = next_post(&posts, &p, &[s("scat")]);
    assert_eq!(pick.advance_to, 2);
}

#[test]
fn refusals_name_the_first_reason() {
    let rule = TagRule::parse("[solo]->[-male]").unwrap();
    let mut repo = InMemoryPosterRepository::new();
    let p = repo.create(vec![has("wolf")], tags(&["gore"]), PostInterval::new(5).unwrap(), 0).unwrap();
    let p = repo.set_rules(p.id, vec![rule]).unwrap();
    let r = refusal_for(&p, &tags(&["wolf", "gore"])).unwrap();
    assert_eq!(r.to_string(), "forbidden tag `gore`");
    let r = refusal_for(&p, &tags(&["fox"])).unwrap();
    assert_eq!(r.to_string(), "missing `wolf`");
    let r = refusal_for(&p, &tags(&["wolf", "solo", "male"])).unwrap();
    assert_eq!(r.to_string(), "rule `[solo]->[-male]` not satisfied");
    assert!(matches!(refusal_for(&p, &tags(&["wolf", "solo", "female"])), None));
    assert!(!matches!(refusal_for(&p, &tags(&[])), Some(Refusal::ForbiddenTag(_))));
}

#[test]
fn printed_terms_and_rules_read_back_unchanged() {
    for raw in ["wolf -gore (fox dog) (-male intersex)", "", "a"] {
        let terms = TagTerm::parse_list(raw).unwrap();
        let printed = yiffy_corner::tag_rule::terms_to_string(&terms);
        assert_eq!(TagTerm::parse_list(&printed).unwrap(), terms);
    }
    for raw in ["[solo]->[-male]", "[solo female]->[safe -male]", "[duo]->[(gay straight bisexual)]"] {
        let rule = TagRule::parse(raw).unwrap();
        assert_eq!(TagRule::parse(&rule.to_string()).unwrap(), rule);
        assert_eq!(rule.to_string(), raw);
    }
}
