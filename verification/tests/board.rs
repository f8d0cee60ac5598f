use yiffy_corner::board::{
    board_text, channel_board, global_board, highscore_text, rank_rows, scoreboard_round, top_submitters,
};
use yiffy_corner::poster::PosterId;
use yiffy_corner::publisher::{InMemoryPublisherConfigRepository, PublisherConfig};
use yiffy_corner::post::{InMemoryPostRepository, PostStatus};
use yiffy_corner::publisher::{InMemoryPublicationRepository, Publication};
use yiffy_corner::user::{InMemoryUserRepository, Role, TelegramId, UserId};

const NOW: i64 = 1_700_000_000_000;

struct Fixture {
    posts: InMemoryPostRepository,
    publications: InMemoryPublicationRepository,
    users: InMemoryUserRepository,
}

impl Fixture {
    fn new() -> Self {
        let mut users = InMemoryUserRepository::new();
        users.create(TelegramId(1), Role::Owner, None, Some("Zuri".into())).unwrap();
        users.create(TelegramId(2), Role::User, None, Some("Wolf".into())).unwrap();
        users.create(TelegramId(3), Role::User, None, Some("Fox".into())).unwrap();
        Fixture { posts: InMemoryPostRepository::new(), publications: InMemoryPublicationRepository::new(), users }
    }

    fn user_id(&self, telegram: i64) -> UserId {
        self.users.find_by_telegram_id(TelegramId(telegram)).unwrap().id
    }

    /// An accepted post by `telegram`, published to each chat in `chats`.
    fn published_post(&mut self, e621_id: u64, telegram: i64, chats: &[i64]) {
        let submitter = self.user_id(telegram);
        let post = self
            .posts
            .create(
                format!("https://e621.net/posts/{e621_id}"),
                vec![],
                vec![],
                Some(submitter),
                NOW,
                PostStatus::AwaitingModeration,
            )
            .unwrap();
        self.posts.accept_into_feed(post.id).unwrap();
        for chat in chats {
            self.publications.record(Publication { post_id: post.id, chat_id: *chat, message_id: 1, published_at: NOW });
        }
    }
}

#[test]
fn channel_board_counts_publications_in_that_chat_only() {
    let mut fx = Fixture::new();
    fx.published_post(1, 2, &[-100]);
    fx.published_post(2, 2, &[-100]);
    fx.published_post(3, 3, &[-100]);
    fx.published_post(4, 3, &[-200]);
    let board = channel_board(-100, &fx.publications, &fx.posts, &fx.users, 10);
    let names: Vec<(String, u64)> = board.iter().map(|(u, s)| (u.display_name.clone().unwrap(), *s)).collect();
    assert_eq!(names, vec![("Wolf".to_string(), 2), ("Fox".to_string(), 1)]);
}

#[test]
fn staff_never_rank() {
    let mut fx = Fixture::new();
    fx.published_post(1, 1, &[-100]);
    fx.published_post(2, 1, &[-100]);
    fx.published_post(3, 2, &[-100]);
    let board = channel_board(-100, &fx.publications, &fx.posts, &fx.users, 10);
    assert_eq!(board.len(), 1);
    assert_eq!(board[0].0.display_name.as_deref(), Some("Wolf"));
    let board = global_board(&fx.posts, &fx.users, 10);
    assert_eq!(board.len(), 1);
    assert_eq!(board[0].0.display_name.as_deref(), Some("Wolf"));
}

#[test]
fn repeat_delivery_of_one_post_scores_once() {
    let mut fx = Fixture::new();
    fx.published_post(1, 2, &[-100, -100]);
    let board = channel_board(-100, &fx.publications, &fx.posts, &fx.users, 10);
    assert_eq!(board[0].1, 1);
}

#[test]
fn empty_chat_has_an_empty_board() {
    let fx = Fixture::new();
    assert!(channel_board(-999, &fx.publications, &fx.posts, &fx.users, 10).is_empty());
}

#[test]
fn boards_respect_the_limit() {
    let mut fx = Fixture::new();
    fx.published_post(1, 2, &[-100]);
    fx.published_post(2, 2, &[-100]);
    fx.published_post(3, 3, &[-100]);
    let board = channel_board(-100, &fx.publications, &fx.posts, &fx.users, 1);
    assert_eq!(board.len(), 1);
    assert_eq!(board[0].0.display_name.as_deref(), Some("Wolf"));
    let board = global_board(&fx.posts, &fx.users, 1);
    assert_eq!(board.len(), 1);
    assert_eq!(board[0].1, 2);
}

#[test]
fn feed_tally_ranks_by_count_then_id() {
    let mut fx = Fixture::new();
    fx.published_post(1, 3, &[]);
    fx.published_post(2, 2, &[]);
    fx.published_post(3, 3, &[]);
    let top = top_submitters(&fx.posts, 10);
    assert_eq!(top, vec![(fx.user_id(3), 2), (fx.user_id(2), 1)]);
    let ranked = rank_rows(&vec![(UserId(5), 1), (UserId(2), 1), (UserId(9), 4)]);
    assert_eq!(ranked, vec![(UserId(9), 4), (UserId(2), 1), (UserId(5), 1)]);
}

#[test]
fn board_text_has_medals_and_nouns() {
    let mut fx = Fixture::new();
    fx.published_post(1, 2, &[-100]);
    fx.published_post(2, 2, &[-100]);
    fx.published_post(3, 3, &[-100]);
    let board = channel_board(-100, &fx.publications, &fx.posts, &fx.users, 10);
    assert_eq!(
        board_text(&board),
        "🏆 This channel's top contributors\n🥇 Wolf — 2 posts\n🥈 Fox — 1 post"
    );
}

#[test]
fn highscore_text_titles_the_global_board() {
    let mut fx = Fixture::new();
    fx.published_post(1, 3, &[]);
    let board = global_board(&fx.posts, &fx.users, 10);
    assert_eq!(highscore_text(&board), "🏆 Top submitters\n🥇 Fox — 1 post");
    assert_eq!(highscore_text(&[]), "🏆 Top submitters");
}

fn bind(configs: &mut InMemoryPublisherConfigRepository, poster: u64, chat: i64) {
    configs.upsert(PublisherConfig {
        poster_id: PosterId(poster),
        chat_id: chat,
        token_path: "/run/secrets/bot".to_string(),
        receive_announcements: true,
    });
}

#[test]
fn a_round_boards_each_bound_chat_once_in_order() {
    let mut fx = Fixture::new();
    fx.published_post(1, 2, &[-100]);
    fx.published_post(2, 3, &[-300]);
    let mut configs = InMemoryPublisherConfigRepository::new();
    bind(&mut configs, 1, -100);
    bind(&mut configs, 2, -300);
    bind(&mut configs, 3, -100);
    bind(&mut configs, 4, -200); // nothing published there: stays quiet
    let round = scoreboard_round(&configs, &fx.publications, &fx.posts, &fx.users, 10).unwrap();
    let chats: Vec<i64> = round.iter().map(|(c, _)| *c).collect();
    assert_eq!(chats, vec![-300, -100]);
    assert_eq!(round[1].1, board_text(&channel_board(-100, &fx.publications, &fx.posts, &fx.users, 10)));
    assert_eq!(round[0].1, "🏆 This channel's top contributors\n🥇 Fox — 1 post");
}

#[test]
fn a_round_without_bound_chats_is_refused() {
    let fx = Fixture::new();
    let configs = InMemoryPublisherConfigRepository::new();
    assert_eq!(
        scoreboard_round(&configs, &fx.publications, &fx.posts, &fx.users, 10),
        Err("no consuming channels are bound".to_string())
    );
}
