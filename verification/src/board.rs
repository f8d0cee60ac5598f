//! Leaderboards: community members only — staff never rank.
//!
//! The per-channel board is scored on publications: distinct posts that
//! went out in that chat, credited to their submitters.

use vstd::prelude::*;
use crate::handler::HandlerError;
use crate::post::{post_by_id, InMemoryPostRepository, PostId, PostView};
use crate::publisher::{
    for_chat, publications_where, InMemoryPublicationRepository, InMemoryPublisherConfigRepository, Publication,
    PublisherConfig,
};
use crate::text::{decimal, join, lemma_join_push, push_decimal, push_signed_decimal, push_str, signed_decimal, views};
use crate::user::{clone_user, user_by_id, users_wf, InMemoryUserRepository, Role, User, UserId};

verus! {

/// The ranked rows kept on a board: rows of known users with role `User`,
/// in order, at most `limit` of them.
pub open spec fn keep_spec(ranked: Seq<(UserId, u64)>, users: Seq<User>, limit: nat) -> Seq<(User, u64)>
    decreases ranked.len(),
{
    if ranked.len() == 0 {
        seq![]
    } else {
        let prev = keep_spec(ranked.drop_last(), users, limit);
        let (uid, score) = ranked.last();
        if prev.len() < limit && user_by_id(users, uid) is Some && user_by_id(users, uid)->0.role == Role::User {
            prev.push((user_by_id(users, uid)->0, score))
        } else {
            prev
        }
    }
}

/// Resolve `(user id, score)` rows, best first, into a board of at most
/// `limit` community members (role `User`); unknown users and staff are
/// passed over.
pub fn keep_community(ranked: &Vec<(UserId, u64)>, users: &InMemoryUserRepository, limit: usize) -> (board: Vec<(User, u64)>)
    ensures
        board@ == keep_spec(ranked@, users@, limit as nat),
{
    let mut board: Vec<(User, u64)> = Vec::new();
    let mut k: usize = 0;
    while k < ranked.len()
        invariant
            k <= ranked.len(),
            board@ == keep_spec(ranked@.take(k as int), users@, limit as nat),
        decreases ranked.len() - k,
    {
        assert(ranked@.take(k + 1).drop_last() =~= ranked@.take(k as int));
        let (uid, score) = ranked[k];
        if board.len() < limit {
            match users.find_by_id(uid) {
                Some(user) => {
                    if user.role == Role::User {
                        board.push((user, score));
                    }
                },
                None => {},
            }
        }
        k = k + 1;
    }
    assert(ranked@.take(ranked.len() as int) =~= ranked@);
    board
}

/// Points per submitter over the posts of `ps` in the feed, in id order.
pub open spec fn feed_tally(ps: Seq<PostView>) -> Seq<(UserId, u64)>
    decreases ps.len(),
{
    if ps.len() == 0 {
        seq![]
    } else {
        let prev = feed_tally(ps.drop_last());
        let p = ps.last();
        if p.feed_position is Some && p.submitted_by is Some { credit(prev, p.submitted_by->0) } else { prev }
    }
}

/// The store's submitters by posts accepted into the feed, best first,
/// at most `limit` rows.
pub fn top_submitters(posts: &InMemoryPostRepository, limit: usize) -> (r: Vec<(UserId, u64)>)
    ensures
        r@ == ranked(feed_tally(posts@)).take(if limit < ranked(feed_tally(posts@)).len() { limit as int } else { ranked(feed_tally(posts@)).len() as int }),
{
    let n = posts.count();
    let mut rows: Vec<(UserId, u64)> = Vec::new();
    let mut i: u64 = 0;
    while i < n
        invariant
            i <= n == posts@.len(),
            rows@ == feed_tally(posts@.take(i as int)),
            rows_bounded(rows@, i as nat),
        decreases n - i,
    {
        assert(posts@.take(i + 1).drop_last() =~= posts@.take(i as int));
        match posts.find_by_id(PostId(i)) {
            Some(post) => {
                assert(post@ == posts@[i as int]);
                if post.feed_position.is_some() {
                    match post.submitted_by {
                        Some(u) => credit_row(&mut rows, u, Ghost(i as nat)),
                        None => {},
                    }
                }
            },
            None => {},
        }
        i = i + 1;
    }
    assert(posts@.take(n as int) =~= posts@);
    let order = rank_rows(&rows);
    let mut r: Vec<(UserId, u64)> = Vec::new();
    let mut k: usize = 0;
    while k < order.len() && k < limit
        invariant
            k <= order.len(),
            k <= limit,
            r@ == order@.take(k as int),
        decreases order.len() - k,
    {
        r.push(order[k]);
        assert(order@.take(k + 1) =~= order@.take(k as int).push(order@[k as int]));
        k = k + 1;
    }
    r
}

/// One more point for `u` (a new row when absent).
fn credit_row(rows: &mut Vec<(UserId, u64)>, u: UserId, bound: Ghost<nat>)
    requires
        rows_bounded(old(rows)@, bound@),
        bound@ < u64::MAX,
    ensures
        final(rows)@ == credit(old(rows)@, u),
        rows_bounded(final(rows)@, bound@ + 1),
{
    let ghost before = rows@;
    let ghost pred = row_of(before, u);
    let mut p: usize = 0;
    while p < rows.len() && rows[p].0 != u
        invariant
            p <= rows.len(),
            rows@ == before,
            pred == row_of(before, u),
            forall|q: int| 0 <= q < p ==> !#[trigger] pred(q),
        decreases rows.len() - p,
    {
        p = p + 1;
    }
    proof {
        crate::text::lemma_first_idx_is(0, p as int, before.len() as int, pred);
    }
    if p < rows.len() {
        let n = rows[p].1;
        rows.set(p, (u, n + 1));
    } else {
        rows.push((u, 1));
    }
    proof {
        assert forall|q: int| 0 <= q < rows@.len() implies (#[trigger] rows@[q]).1 <= bound@ + 1 by {
            if q < before.len() {
                assert(before[q].1 <= bound@);
            }
        }
    }
}

/// The global leaderboard: community members by posts accepted into the
/// feed (over-fetching so staff filtered out cannot shrink the board).
pub fn global_board(posts: &InMemoryPostRepository, users: &InMemoryUserRepository, limit: usize) -> (board: Vec<(User, u64)>)
    requires
        limit + 50 <= usize::MAX,
    ensures
        board@ == keep_spec(
            ranked(feed_tally(posts@)).take(if limit + 50 < ranked(feed_tally(posts@)).len() {
                limit + 50
            } else {
                ranked(feed_tally(posts@)).len() as int
            }),
            users@,
            limit as nat,
        ),
{
    let ranked_rows = top_submitters(posts, limit + 50);
    keep_community(&ranked_rows, users, limit)
}

/// The posts named by publications, each once, in order of first
/// delivery.
pub open spec fn distinct_published(ps: Seq<Publication>) -> Seq<PostId>
    decreases ps.len(),
{
    if ps.len() == 0 {
        seq![]
    } else {
        let prev = distinct_published(ps.drop_last());
        if prev.contains(ps.last().post_id) { prev } else { prev.push(ps.last().post_id) }
    }
}

pub open spec fn row_of(rows: Seq<(UserId, u64)>, u: UserId) -> spec_fn(int) -> bool {
    |k: int| rows[k].0 == u
}

/// Credit one point to `u` in `rows` (a new row when absent).
pub open spec fn credit(rows: Seq<(UserId, u64)>, u: UserId) -> Seq<(UserId, u64)> {
    let i = crate::text::first_idx(0, rows.len() as int, row_of(rows, u));
    if i < rows.len() {
        rows.update(i, (u, (rows[i].1 + 1) as u64))
    } else {
        rows.push((u, 1u64))
    }
}

/// Points per submitter over the posts `ids`, rows in order of first
/// credit.
pub open spec fn tally(ids: Seq<PostId>, posts: Seq<PostView>) -> Seq<(UserId, u64)>
    decreases ids.len(),
{
    if ids.len() == 0 {
        seq![]
    } else {
        let prev = tally(ids.drop_last(), posts);
        match post_by_id(posts, ids.last()) {
            Some(p) => match p.submitted_by {
                Some(u) => credit(prev, u),
                None => prev,
            },
            None => prev,
        }
    }
}

/// `a` ranks before `b`: more points, ties by lower user id.
pub open spec fn ranks_before(a: (UserId, u64), b: (UserId, u64)) -> bool {
    a.1 > b.1 || (a.1 == b.1 && a.0.0 < b.0.0)
}

pub open spec fn ranks_not_before(rows: Seq<(UserId, u64)>, x: (UserId, u64)) -> spec_fn(int) -> bool {
    |k: int| ranks_before(x, rows[k])
}

/// The rows ordered best first.
pub open spec fn ranked(rows: Seq<(UserId, u64)>) -> Seq<(UserId, u64)>
    decreases rows.len(),
{
    if rows.len() == 0 {
        seq![]
    } else {
        let prev = ranked(rows.drop_last());
        let x = rows.last();
        prev.insert(crate::text::first_idx(0, prev.len() as int, ranks_not_before(prev, x)), x)
    }
}

pub open spec fn sorted_ranking(rows: Seq<(UserId, u64)>) -> bool {
    forall|i: int, j: int| 0 <= i < j < rows.len() ==> !ranks_before(#[trigger] rows[j], #[trigger] rows[i])
}

/// The point count of every row stays below the number of posts counted.
pub open spec fn rows_bounded(rows: Seq<(UserId, u64)>, n: nat) -> bool {
    forall|i: int| 0 <= i < rows.len() ==> (#[trigger] rows[i]).1 <= n
}

/// One channel's board: community members by how many distinct posts of
/// theirs were published to `chat_id`, best first (ties by user id), at
/// most `limit`.
pub fn channel_board(
    chat_id: i64,
    publications: &InMemoryPublicationRepository,
    posts: &InMemoryPostRepository,
    users: &InMemoryUserRepository,
    limit: usize,
) -> (board: Vec<(User, u64)>)
    ensures
        board@ == keep_spec(
            ranked(tally(distinct_published(publications_where(publications@, for_chat(chat_id))), posts@)),
            users@,
            limit as nat,
        ),
{
    let published = publications.list_for_chat(chat_id);
    // distinct post ids, in order of first delivery
    let mut ids: Vec<PostId> = Vec::new();
    let mut k: usize = 0;
    while k < published.len()
        invariant
            k <= published.len(),
            ids@ == distinct_published(published@.take(k as int)),
            ids@.len() <= k,
        decreases published.len() - k,
    {
        assert(published@.take(k + 1).drop_last() =~= published@.take(k as int));
        let id = published[k].post_id;
        let mut seen = false;
        let mut j: usize = 0;
        while j < ids.len()
            invariant
                j <= ids.len(),
                seen == exists|q: int| 0 <= q < j && ids@[q] == id,
            decreases ids.len() - j,
        {
            if ids[j] == id {
                seen = true;
            }
            j = j + 1;
        }
        if !seen {
            ids.push(id);
        }
        k = k + 1;
    }
    assert(published@.take(published.len() as int) =~= published@);
    // points per submitter
    let mut rows: Vec<(UserId, u64)> = Vec::new();
    let mut i: usize = 0;
    while i < ids.len()
        invariant
            i <= ids.len(),
            rows@ == tally(ids@.take(i as int), posts@),
            rows_bounded(rows@, i as nat),
        decreases ids.len() - i,
    {
        assert(ids@.take(i + 1).drop_last() =~= ids@.take(i as int));
        match posts.find_by_id(ids[i]) {
            Some(post) => match post.submitted_by {
                Some(u) => {
                    let ghost before = rows@;
                    let ghost pred = row_of(before, u);
                    let mut p: usize = 0;
                    while p < rows.len() && rows[p].0 != u
                        invariant
                            p <= rows.len(),
                            rows@ == before,
                            pred == row_of(before, u),
                            forall|q: int| 0 <= q < p ==> !#[trigger] pred(q),
                        decreases rows.len() - p,
                    {
                        p = p + 1;
                    }
                    proof {
                        crate::text::lemma_first_idx_is(0, p as int, before.len() as int, pred);
                    }
                    if p < rows.len() {
                        let n = rows[p].1;
                        rows.set(p, (u, n + 1));
                    } else {
                        rows.push((u, 1));
                    }
                    proof {
                        assert forall|q: int| 0 <= q < rows@.len() implies (#[trigger] rows@[q]).1 <= i + 1 by {
                            if q < before.len() {
                                assert(before[q].1 <= i);
                            }
                        }
                    }
                },
                None => {},
            },
            None => {},
        }
        i = i + 1;
    }
    assert(ids@.take(ids.len() as int) =~= ids@);
    let order = rank_rows(&rows);
    keep_community(&order, users, limit)
}

/// The rows ordered best first: more points first, ties by lower user id.
pub fn rank_rows(rows: &Vec<(UserId, u64)>) -> (r: Vec<(UserId, u64)>)
    ensures
        r@ == ranked(rows@),
{
    let mut r: Vec<(UserId, u64)> = Vec::new();
    let mut k: usize = 0;
    while k < rows.len()
        invariant
            k <= rows.len(),
            r@ == ranked(rows@.take(k as int)),
        decreases rows.len() - k,
    {
        assert(rows@.take(k + 1).drop_last() =~= rows@.take(k as int));
        let x = rows[k];
        let ghost pred = ranks_not_before(r@, x);
        let mut pos: usize = 0;
        while pos < r.len() && !(x.1 > r[pos].1 || (x.1 == r[pos].1 && (x.0).0 < (r[pos].0).0))
            invariant
                pos <= r.len(),
                pred == ranks_not_before(r@, x),
                forall|q: int| 0 <= q < pos ==> !#[trigger] pred(q),
            decreases r.len() - pos,
        {
            pos = pos + 1;
        }
        proof {
            crate::text::lemma_first_idx_is(0, pos as int, r@.len() as int, pred);
        }
        r.insert(pos, x);
        k = k + 1;
    }
    assert(rows@.take(rows.len() as int) =~= rows@);
    r
}

// ---------------------------------------------------------------- text ----

/// `🥇`, `🥈`, `🥉`, then `4.`, `5.`, …
pub open spec fn medal(rank: nat) -> Seq<char> {
    if rank == 0 {
        "🥇"@
    } else if rank == 1 {
        "🥈"@
    } else if rank == 2 {
        "🥉"@
    } else {
        decimal(rank + 1) + "."@
    }
}

/// How a board names a member: display name, else their Telegram id.
pub open spec fn member_name(u: User) -> Seq<char> {
    match u.display_name {
        Some(n) => n@,
        None => "user "@ + signed_decimal(u.telegram_id.0 as int),
    }
}

pub open spec fn board_line(rank: nat, row: (User, u64)) -> Seq<char> {
    medal(rank) + " "@ + member_name(row.0) + " — "@ + decimal(row.1 as nat)
        + (if row.1 == 1 { " post"@ } else { " posts"@ })
}

/// A board under its title line, one line per member.
pub open spec fn board_lines(title: Seq<char>, rows: Seq<(User, u64)>) -> Seq<Seq<char>> {
    seq![title] + Seq::new(rows.len(), |i: int| board_line(i as nat, rows[i]))
}

fn medal_text(rank: usize) -> (m: String)
    requires
        rank < usize::MAX,
    ensures
        m@ == medal(rank as nat),
{
    let mut m = String::new();
    if rank == 0 {
        push_str(&mut m, "🥇");
    } else if rank == 1 {
        push_str(&mut m, "🥈");
    } else if rank == 2 {
        push_str(&mut m, "🥉");
    } else {
        push_decimal(&mut m, (rank as u64) + 1);
        push_str(&mut m, ".");
    }
    m
}

fn member_name_of(user: &User) -> (n: String)
    ensures
        n@ == member_name(*user),
{
    match &user.display_name {
        Some(n) => n.clone(),
        None => {
            let mut n = String::new();
            push_str(&mut n, "user ");
            push_signed_decimal(&mut n, user.telegram_id.0);
            n
        },
    }
}

fn push_board_line(s: &mut String, rank: usize, row: &(User, u64))
    requires
        rank < usize::MAX,
    ensures
        final(s)@ == old(s)@ + board_line(rank as nat, *row),
{
    let m = medal_text(rank);
    let name = member_name_of(&row.0);
    push_str(s, m.as_str());
    push_str(s, " ");
    push_str(s, name.as_str());
    push_str(s, " — ");
    push_decimal(s, row.1);
    if row.1 == 1 {
        push_str(s, " post");
    } else {
        push_str(s, " posts");
    }
    assert(final(s)@ =~= old(s)@ + board_line(rank as nat, *row));
}

fn titled_board(title: &str, board: &[(User, u64)]) -> (s: String)
    ensures
        s@ == join(board_lines(title@, board@), seq!['\n']),
{
    let ghost lines = board_lines(title@, board@);
    let mut s = String::new();
    push_str(&mut s, title);
    assert(lines.take(1) =~= seq![lines[0]]);
    let mut k: usize = 0;
    while k < board.len()
        invariant
            k <= board.len(),
            lines == board_lines(title@, board@),
            s@ == join(lines.take(k + 1), seq!['\n']),
        decreases board.len() - k,
    {
        proof {
            lemma_join_push(lines.take(k + 1), lines[k + 1], seq!['\n']);
            assert(lines.take(k + 2) =~= lines.take(k + 1).push(lines[k + 1]));
        }
        let ghost before = s@;
        push_str(&mut s, "\n");
        push_board_line(&mut s, k, &board[k]);
        proof {
            assert(lines[k + 1] == board_line(k as nat, board@[k as int]));
            assert("\n"@ == seq!['\n']) by {
                reveal_strlit("\n");
            }
            assert(s@ =~= before + seq!['\n'] + lines[k + 1]);
        }
        k = k + 1;
    }
    assert(lines.take(board.len() + 1) =~= lines);
    s
}

/// The board as posted in the channel: a title line, then one line per
/// member with medal, name and post count.
pub fn board_text(board: &[(User, u64)]) -> (s: String)
    ensures
        s@ == join(board_lines("🏆 This channel's top contributors"@, board@), seq!['\n']),
{
    titled_board("🏆 This channel's top contributors", board)
}

/// The global leaderboard as `/highscore` shows it: the same rows under
/// the "Top submitters" title.
pub fn highscore_text(board: &[(User, u64)]) -> (s: String)
    ensures
        s@ == join(board_lines("🏆 Top submitters"@, board@), seq!['\n']),
{
    titled_board("🏆 Top submitters", board)
}

// ---------------------------------------------------------------- laws ----

/// Staff never rank: every row of a board is a known community member
/// (role `User`) with the score the ranking gave them, and a board never
/// holds more than `limit` rows.
pub proof fn lemma_staff_never_rank(ranked: Seq<(UserId, u64)>, users: Seq<User>, limit: nat)
    ensures
        keep_spec(ranked, users, limit).len() <= limit,
        keep_spec(ranked, users, limit).len() <= ranked.len(),
        forall|i: int| 0 <= i < keep_spec(ranked, users, limit).len() ==> {
            let row = #[trigger] keep_spec(ranked, users, limit)[i];
            &&& row.0.role == Role::User
            &&& exists|j: int| 0 <= j < ranked.len() && user_by_id(users, ranked[j].0) == Some(row.0) && ranked[j].1 == row.1
        },
    decreases ranked.len(),
{
    if ranked.len() > 0 {
        lemma_staff_never_rank(ranked.drop_last(), users, limit);
        let prev = keep_spec(ranked.drop_last(), users, limit);
        let now = keep_spec(ranked, users, limit);
        assert forall|i: int| 0 <= i < now.len() implies {
            let row = #[trigger] now[i];
            &&& row.0.role == Role::User
            &&& exists|j: int| 0 <= j < ranked.len() && user_by_id(users, ranked[j].0) == Some(row.0) && ranked[j].1 == row.1
        } by {
            if i < prev.len() {
                assert(now[i] == prev[i]);
                let j = choose|j: int| 0 <= j < ranked.drop_last().len()
                    && user_by_id(users, ranked.drop_last()[j].0) == Some(prev[i].0) && ranked.drop_last()[j].1 == prev[i].1;
                assert(ranked[j] == ranked.drop_last()[j]);
            } else {
                assert(ranked[ranked.len() - 1] == ranked.last());
            }
        }
    }
}

/// Ranking orders any rows best first and keeps every row.
pub proof fn lemma_ranked_sorted(rows: Seq<(UserId, u64)>)
    ensures
        sorted_ranking(ranked(rows)),
        ranked(rows).len() == rows.len(),
    decreases rows.len(),
{
    if rows.len() > 0 {
        lemma_ranked_sorted(rows.drop_last());
        let prev = ranked(rows.drop_last());
        let x = rows.last();
        let f = ranks_not_before(prev, x);
        let p = crate::text::first_idx(0, prev.len() as int, f);
        crate::text::lemma_first_idx(0, prev.len() as int, f);
        prev.insert_ensures(p, x);
        let now = prev.insert(p, x);
        assert(now == ranked(rows));
        assert forall|i: int, j: int| 0 <= i < j < now.len() implies !ranks_before(#[trigger] now[j], #[trigger] now[i]) by {
            if j < p {
                assert(now[i] == prev[i] && now[j] == prev[j]);
            } else if j == p {
                assert(now[i] == prev[i]);
                assert(!f(i));
            } else if i < p {
                assert(now[i] == prev[i]);
                assert(now[j] == prev[j - 1]);
            } else if i == p {
                assert(now[j] == prev[j - 1]);
                assert(f(p));
                assert(!ranks_before(prev[j - 1], prev[p]));
            } else {
                assert(now[i] == prev[i - 1]);
                assert(now[j] == prev[j - 1]);
            }
        }
    }
}

/// The rows kept from a best-first ranking stay best first: scores never
/// rise down the board.
proof fn lemma_keep_sorted(rs: Seq<(UserId, u64)>, users: Seq<User>, limit: nat)
    requires
        sorted_ranking(rs),
    ensures
        forall|i: int, j: int| 0 <= i < j < keep_spec(rs, users, limit).len()
            ==> (#[trigger] keep_spec(rs, users, limit)[i]).1 >= (#[trigger] keep_spec(rs, users, limit)[j]).1,
    decreases rs.len(),
{
    if rs.len() > 0 {
        let r0 = rs.drop_last();
        assert forall|i: int, j: int| 0 <= i < j < r0.len() implies !ranks_before(#[trigger] r0[j], #[trigger] r0[i]) by {
            assert(r0[i] == rs[i] && r0[j] == rs[j]);
        }
        lemma_keep_sorted(r0, users, limit);
        lemma_staff_never_rank(r0, users, limit);
        let prev = keep_spec(r0, users, limit);
        let now = keep_spec(rs, users, limit);
        assert forall|i: int, j: int| 0 <= i < j < now.len() implies (#[trigger] now[i]).1 >= (#[trigger] now[j]).1 by {
            if j < prev.len() {
                assert(now[i] == prev[i] && now[j] == prev[j]);
            } else {
                assert(now[i] == prev[i]);
                assert(now[j].1 == rs.last().1);
                let row = prev[i];
                let k = choose|k: int| 0 <= k < r0.len() && user_by_id(users, r0[k].0) == Some(row.0) && r0[k].1 == row.1;
                assert(r0[k] == rs[k]);
                assert(!ranks_before(rs[rs.len() - 1], rs[k]));
            }
        }
    }
}

/// A channel board is the ranking's community rows:
/// at most `limit` of them, every one a member with role `User`, and the
/// best score first, never rising further down.
pub proof fn lemma_board_shape(rows: Seq<(UserId, u64)>, users: Seq<User>, limit: nat)
    ensures
        keep_spec(ranked(rows), users, limit).len() <= limit,
        keep_spec(ranked(rows), users, limit).len() <= rows.len(),
        forall|i: int| 0 <= i < keep_spec(ranked(rows), users, limit).len()
            ==> (#[trigger] keep_spec(ranked(rows), users, limit)[i]).0.role == Role::User,
        forall|i: int, j: int| 0 <= i < j < keep_spec(ranked(rows), users, limit).len()
            ==> (#[trigger] keep_spec(ranked(rows), users, limit)[i]).1 >= (#[trigger] keep_spec(ranked(rows), users, limit)[j]).1,
{
    lemma_ranked_sorted(rows);
    lemma_staff_never_rank(ranked(rows), users, limit);
    lemma_keep_sorted(ranked(rows), users, limit);
}

/// How many of the posts `ids` were submitted by `u`.
pub open spec fn credited(ids: Seq<PostId>, posts: Seq<PostView>, u: UserId) -> nat
    decreases ids.len(),
{
    if ids.len() == 0 {
        0
    } else {
        credited(ids.drop_last(), posts, u) + (if post_by_id(posts, ids.last()) matches Some(p) && p.submitted_by == Some(u) {
            1nat
        } else {
            0nat
        })
    }
}

proof fn lemma_credited_bound(ids: Seq<PostId>, posts: Seq<PostView>, u: UserId)
    ensures
        credited(ids, posts, u) <= ids.len(),
    decreases ids.len(),
{
    if ids.len() > 0 {
        lemma_credited_bound(ids.drop_last(), posts, u);
    }
}

/// The tally holds one row per submitter credited at least once, each with
/// the number of the posts that submitter is credited with.
proof fn lemma_tally_scores(ids: Seq<PostId>, posts: Seq<PostView>)
    requires
        ids.len() < u64::MAX,
    ensures
        forall|k: int| 0 <= k < tally(ids, posts).len()
            ==> (#[trigger] tally(ids, posts)[k]).1 == credited(ids, posts, tally(ids, posts)[k].0),
        forall|a: int, b: int| 0 <= a < b < tally(ids, posts).len() ==> (#[trigger] tally(ids, posts)[a]).0 != (#[trigger] tally(ids, posts)[b]).0,
        forall|u: UserId| #[trigger] credited(ids, posts, u) > 0 ==> exists|k: int| 0 <= k < tally(ids, posts).len() && tally(ids, posts)[k].0 == u,
    decreases ids.len(),
{
    if ids.len() > 0 {
        let i0 = ids.drop_last();
        lemma_tally_scores(i0, posts);
        let prev = tally(i0, posts);
        let rows = tally(ids, posts);
        let x = ids.last();
        assert forall|u: UserId| credited(ids, posts, u) == credited(i0, posts, u) + (if post_by_id(posts, x) matches Some(p) && p.submitted_by == Some(u) {
            1nat
        } else {
            0nat
        }) by {}
        if post_by_id(posts, x) is Some && post_by_id(posts, x)->0.submitted_by is Some {
            let u0 = post_by_id(posts, x)->0.submitted_by->0;
            let f = row_of(prev, u0);
            let i = crate::text::first_idx(0, prev.len() as int, f);
            crate::text::lemma_first_idx(0, prev.len() as int, f);
            lemma_credited_bound(i0, posts, u0);
            if i < prev.len() {
                assert(prev[i].0 == u0);
                assert(rows == prev.update(i, (u0, (prev[i].1 + 1) as u64)));
                assert forall|k: int| 0 <= k < rows.len() implies (#[trigger] rows[k]).1 == credited(ids, posts, rows[k].0) by {
                    if k != i {
                        assert(rows[k] == prev[k]);
                    }
                }
                assert forall|u: UserId| #[trigger] credited(ids, posts, u) > 0 implies exists|k: int| 0 <= k < rows.len() && rows[k].0 == u by {
                    if u == u0 {
                        assert(rows[i].0 == u);
                    } else {
                        let k = choose|k: int| 0 <= k < prev.len() && prev[k].0 == u;
                        if k == i {
                            assert(false);
                        }
                        assert(rows[k] == prev[k]);
                    }
                }
            } else {
                assert(rows == prev.push((u0, 1u64)));
                assert forall|k: int| 0 <= k < prev.len() implies prev[k].0 != u0 by {
                    assert(!f(k));
                }
                assert(credited(i0, posts, u0) == 0);
                assert forall|k: int| 0 <= k < rows.len() implies (#[trigger] rows[k]).1 == credited(ids, posts, rows[k].0) by {
                    if k < prev.len() {
                        assert(rows[k] == prev[k]);
                    }
                }
                assert forall|u: UserId| #[trigger] credited(ids, posts, u) > 0 implies exists|k: int| 0 <= k < rows.len() && rows[k].0 == u by {
                    if u == u0 {
                        assert(rows[prev.len() as int].0 == u);
                    } else {
                        let k = choose|k: int| 0 <= k < prev.len() && prev[k].0 == u;
                        assert(rows[k] == prev[k]);
                    }
                }
            }
        } else {
            assert(rows == prev);
        }
    }
}

/// Every ranked row is a row of the ranking's input.
proof fn lemma_ranked_members(rows: Seq<(UserId, u64)>)
    ensures
        forall|k: int| 0 <= k < ranked(rows).len() ==> exists|j: int| 0 <= j < rows.len() && #[trigger] ranked(rows)[k] == rows[j],
    decreases rows.len(),
{
    lemma_ranked_sorted(rows);
    if rows.len() > 0 {
        let r0 = rows.drop_last();
        lemma_ranked_members(r0);
        lemma_ranked_sorted(r0);
        let prev = ranked(r0);
        let x = rows.last();
        let f = ranks_not_before(prev, x);
        let p = crate::text::first_idx(0, prev.len() as int, f);
        crate::text::lemma_first_idx(0, prev.len() as int, f);
        prev.insert_ensures(p, x);
        let now = prev.insert(p, x);
        assert(now == ranked(rows));
        assert forall|k: int| 0 <= k < now.len() implies exists|j: int| 0 <= j < rows.len() && #[trigger] now[k] == rows[j] by {
            if k == p {
                assert(now[k] == rows[rows.len() - 1]);
            } else {
                let m = if k < p { k } else { k - 1 };
                assert(now[k] == prev[m]);
                let j = choose|j: int| 0 <= j < r0.len() && #[trigger] prev[m] == r0[j];
                assert(r0[j] == rows[j]);
            }
        }
    }
}

/// A post id occurs at most once among the distinct published posts.
proof fn lemma_distinct_published_unique(ps: Seq<Publication>)
    ensures
        distinct_published(ps).no_duplicates(),
        distinct_published(ps).len() <= ps.len(),
    decreases ps.len(),
{
    if ps.len() > 0 {
        lemma_distinct_published_unique(ps.drop_last());
        let prev = distinct_published(ps.drop_last());
        let x = ps.last().post_id;
        if !prev.contains(x) {
            let now = prev.push(x);
            assert forall|a: int, b: int| 0 <= a < b < now.len() implies now[a] != now[b] by {
                if b == prev.len() {
                    assert(now[a] == prev[a]);
                } else {
                    assert(now[a] == prev[a] && now[b] == prev[b]);
                }
            }
        }
    }
}

/// On a channel board each member's score is the number of distinct posts
/// of theirs published to that chat: the chat's deliveries, each post
/// counted once however often it went out, credited to its submitter.
pub proof fn lemma_board_scores(ps: Seq<Publication>, chat: i64, posts: Seq<PostView>, users: Seq<User>, limit: nat)
    requires
        users_wf(users),
        publications_where(ps, for_chat(chat)).len() < u64::MAX,
    ensures
        ({
            let ids = distinct_published(publications_where(ps, for_chat(chat)));
            let board = keep_spec(ranked(tally(ids, posts)), users, limit);
            &&& ids.no_duplicates()
            &&& forall|i: int| 0 <= i < board.len() ==> (#[trigger] board[i]).1 == credited(ids, posts, board[i].0.id)
        }),
{
    let ids = distinct_published(publications_where(ps, for_chat(chat)));
    lemma_distinct_published_unique(publications_where(ps, for_chat(chat)));
    let rows = tally(ids, posts);
    lemma_tally_scores(ids, posts);
    lemma_ranked_members(rows);
    let rk = ranked(rows);
    lemma_staff_never_rank(rk, users, limit);
    let board = keep_spec(rk, users, limit);
    assert forall|i: int| 0 <= i < board.len() implies (#[trigger] board[i]).1 == credited(ids, posts, board[i].0.id) by {
        let row = board[i];
        let j = choose|j: int| 0 <= j < rk.len() && user_by_id(users, rk[j].0) == Some(row.0) && rk[j].1 == row.1;
        let m = choose|m: int| 0 <= m < rows.len() && #[trigger] rk[j] == rows[m];
        assert(rk[j] == rows[m]);
        assert(users[rk[j].0.0 as int].id.0 == rk[j].0.0);
    }
}

/// A post is among the distinct published posts exactly when some
/// publication names it.
pub proof fn lemma_distinct_published_contains(ps: Seq<Publication>, id: PostId)
    ensures
        distinct_published(ps).contains(id) <==> exists|i: int| 0 <= i < ps.len() && ps[i].post_id == id,
    decreases ps.len(),
{
    if ps.len() > 0 {
        let rest = ps.drop_last();
        lemma_distinct_published_contains(rest, id);
        let prev = distinct_published(rest);
        let now = distinct_published(ps);
        let x = ps.last();
        // prev is a prefix of now
        assert(forall|k: int| 0 <= k < prev.len() ==> now[k] == prev[k]);
        if exists|i: int| 0 <= i < ps.len() && ps[i].post_id == id {
            let i = choose|i: int| 0 <= i < ps.len() && ps[i].post_id == id;
            if i < ps.len() - 1 {
                assert(rest[i].post_id == id);
                let k = choose|k: int| 0 <= k < prev.len() && prev[k] == id;
                assert(now[k] == id);
            } else if prev.contains(id) {
                let k = choose|k: int| 0 <= k < prev.len() && prev[k] == id;
                assert(now[k] == id);
            } else {
                assert(now[prev.len() as int] == id);
            }
            assert(now.contains(id));
        }
        if now.contains(id) {
            let k = choose|k: int| 0 <= k < now.len() && now[k] == id;
            if k < prev.len() {
                assert(prev[k] == id);
                let i = choose|i: int| 0 <= i < rest.len() && rest[i].post_id == id;
                assert(ps[i].post_id == id);
            } else {
                assert(ps[ps.len() - 1].post_id == id);
            }
        }
    }
}

/// A publication that passes the filter is among the filtered ones.
pub proof fn lemma_where_keeps(ps: Seq<Publication>, keep: spec_fn(Publication) -> bool, i: int)
    requires
        0 <= i < ps.len(),
        keep(ps[i]),
    ensures
        publications_where(ps, keep).contains(ps[i]),
    decreases ps.len(),
{
    let prev = publications_where(ps.drop_last(), keep);
    if i < ps.len() - 1 {
        lemma_where_keeps(ps.drop_last(), keep, i);
        assert(ps.drop_last()[i] == ps[i]);
        let k = choose|k: int| 0 <= k < prev.len() && prev[k] == ps[i];
        if keep(ps.last()) {
            assert(prev.push(ps.last())[k] == ps[i]);
        }
    } else {
        assert(prev.push(ps.last())[prev.len() as int] == ps[i]);
    }
}

/// Delivering a post to a chat it already went to leaves every channel's
/// board as it was: a repeat delivery scores once.
pub proof fn lemma_repeat_delivery_scores_once(
    ps: Seq<Publication>,
    x: Publication,
    chat: i64,
    posts: Seq<PostView>,
    users: Seq<User>,
    limit: nat,
)
    requires
        exists|i: int| 0 <= i < ps.len() && ps[i].post_id == x.post_id && ps[i].chat_id == x.chat_id,
    ensures
        keep_spec(ranked(tally(distinct_published(publications_where(ps.push(x), for_chat(chat))), posts)), users, limit)
            == keep_spec(ranked(tally(distinct_published(publications_where(ps, for_chat(chat))), posts)), users, limit),
{
    let before = publications_where(ps, for_chat(chat));
    assert(ps.push(x).drop_last() =~= ps);
    if x.chat_id == chat {
        let i = choose|i: int| 0 <= i < ps.len() && ps[i].post_id == x.post_id && ps[i].chat_id == x.chat_id;
        lemma_where_keeps(ps, for_chat(chat), i);
        let k = choose|k: int| 0 <= k < before.len() && before[k] == ps[i];
        lemma_distinct_published_contains(before, x.post_id);
        assert(before.push(x).drop_last() =~= before);
        assert(distinct_published(before.push(x)) == distinct_published(before));
    }
}

// --------------------------------------------------------------- rounds ----

/// The chats some poster delivers to.
pub open spec fn bound_chats(cs: Seq<PublisherConfig>) -> Set<i64> {
    Set::new(|c: i64| exists|i: int| 0 <= i < cs.len() && cs[i].chat_id == c)
}

pub open spec fn increasing(s: Seq<i64>) -> bool {
    forall|i: int, j: int| 0 <= i < j < s.len() ==> s[i] < s[j]
}

/// The board a chat gets in a round.
pub open spec fn chat_board(
    chat: i64,
    pubs: Seq<Publication>,
    posts: Seq<PostView>,
    users: Seq<User>,
    limit: nat,
) -> Seq<(User, u64)> {
    keep_spec(ranked(tally(distinct_published(publications_where(pubs, for_chat(chat))), posts)), users, limit)
}

/// The boards of one round, chat by chat: a chat with an empty board (no
/// community publications there yet) stays quiet.
pub open spec fn round_boards(
    chats: Seq<i64>,
    pubs: Seq<Publication>,
    posts: Seq<PostView>,
    users: Seq<User>,
    limit: nat,
) -> Seq<(i64, Seq<char>)>
    decreases chats.len(),
{
    if chats.len() == 0 {
        seq![]
    } else {
        let prev = round_boards(chats.drop_last(), pubs, posts, users, limit);
        let b = chat_board(chats.last(), pubs, posts, users, limit);
        if b.len() == 0 {
            prev
        } else {
            prev.push((chats.last(), join(board_lines("🏆 This channel's top contributors"@, b), seq!['\n'])))
        }
    }
}

pub open spec fn texts_view(bs: Seq<(i64, String)>) -> Seq<(i64, Seq<char>)> {
    bs.map_values(|b: (i64, String)| (b.0, b.1@))
}

/// The bound chats, each once, in ascending order.
fn chats_in_order(configs: &InMemoryPublisherConfigRepository) -> (chats: Vec<i64>)
    ensures
        increasing(chats@),
        chats@.to_set() == bound_chats(configs@),
{
    let all = configs.list_all();
    let mut chats: Vec<i64> = Vec::new();
    let mut k: usize = 0;
    while k < all.len()
        invariant
            k <= all.len(),
            all@ == configs@,
            increasing(chats@),
            chats@.to_set() == bound_chats(all@.take(k as int)),
        decreases all.len() - k,
    {
        let c = all[k].chat_id;
        let mut i: usize = 0;
        while i < chats.len() && chats[i] < c
            invariant
                i <= chats.len(),
                forall|x: int| 0 <= x < i ==> chats@[x] < c,
            decreases chats.len() - i,
        {
            i = i + 1;
        }
        let ghost before = chats@;
        if i < chats.len() && chats[i] == c {
            // already listed
        } else {
            chats.insert(i, c);
            assert forall|x: int, y: int| 0 <= x < y < chats@.len() implies chats@[x] < chats@[y] by {
                if y < i {
                } else if y == i {
                } else if x < i {
                    assert(chats@[y] == before[y - 1]);
                    if x + 1 < y {
                        assert(before[x] < before[y - 1]);
                    }
                } else if x == i {
                    assert(chats@[y] == before[y - 1]);
                    assert(before[i as int] > c || i == before.len());
                    if i < before.len() && (y - 1) > i {
                        assert(before[i as int] < before[y - 1]);
                    }
                } else {
                    assert(before[x - 1] < before[y - 1]);
                }
            }
        }
        proof {
            let s0 = bound_chats(all@.take(k as int));
            let s1 = bound_chats(all@.take(k + 1));
            assert(all@.take(k + 1)[k as int].chat_id == c);
            assert forall|z: i64| #[trigger] s1.contains(z) <==> s0.insert(c).contains(z) by {
                if s1.contains(z) {
                    let w = choose|w: int| 0 <= w < k + 1 && (#[trigger] all@.take(k + 1)[w]).chat_id == z;
                    if w < k {
                        assert(all@.take(k as int)[w].chat_id == z);
                    }
                }
                if s0.contains(z) {
                    let w = choose|w: int| 0 <= w < k && (#[trigger] all@.take(k as int)[w]).chat_id == z;
                    assert(all@.take(k + 1)[w].chat_id == z);
                }
            }
            assert(s1 =~= s0.insert(c));
            assert forall|z: i64| #[trigger] chats@.to_set().contains(z) <==> before.to_set().insert(c).contains(z) by {
                if chats@.to_set().contains(z) {
                    let w = chats@.index_of(z);
                    if chats@ != before {
                        if w < i {
                            assert(before[w] == z);
                        } else if w > i {
                            assert(before[w - 1] == z);
                        }
                    }
                }
                if before.to_set().contains(z) {
                    let w = before.index_of(z);
                    if chats@ != before {
                        if w < i {
                            assert(chats@[w] == z);
                        } else {
                            assert(chats@[w + 1] == z);
                        }
                    }
                }
                if z == c {
                    assert(chats@[i as int] == c);
                }
            }
            assert(chats@.to_set() =~= before.to_set().insert(c));
        }
        k = k + 1;
    }
    assert(all@.take(all.len() as int) =~= all@);
    chats
}

/// One scoreboard round: each chat a poster delivers to gets its own board,
/// chats in ascending order; chats with no community publications stay
/// quiet. Refused when no chat is bound at all.
pub fn scoreboard_round(
    configs: &InMemoryPublisherConfigRepository,
    publications: &InMemoryPublicationRepository,
    posts: &InMemoryPostRepository,
    users: &InMemoryUserRepository,
    limit: usize,
) -> (r: Result<Vec<(i64, String)>, String>)
    ensures
        match r {
            Err(e) => bound_chats(configs@).is_empty() && e@ == "no consuming channels are bound"@,
            Ok(bs) => !bound_chats(configs@).is_empty() && exists|cs: Seq<i64>|
                increasing(cs) && cs.to_set() == bound_chats(configs@)
                    && texts_view(bs@) == round_boards(cs, publications@, posts@, users@, limit as nat),
        },
{
    let chats = chats_in_order(configs);
    if chats.len() == 0 {
        assert(chats@.to_set() =~= Set::<i64>::empty());
        return Err("no consuming channels are bound".to_owned());
    }
    assert(chats@.to_set().contains(chats@[0]));
    let mut out: Vec<(i64, String)> = Vec::new();
    let mut k: usize = 0;
    while k < chats.len()
        invariant
            k <= chats.len(),
            texts_view(out@) == round_boards(chats@.take(k as int), publications@, posts@, users@, limit as nat),
        decreases chats.len() - k,
    {
        let chat = chats[k];
        let board = channel_board(chat, publications, posts, users, limit);
        assert(chats@.take(k + 1).drop_last() =~= chats@.take(k as int));
        if board.len() > 0 {
            let text = board_text(board.as_slice());
            out.push((chat, text));
            assert(texts_view(out@) =~= round_boards(chats@.take(k + 1), publications@, posts@, users@, limit as nat));
        }
        k = k + 1;
    }
    assert(chats@.take(chats.len() as int) =~= chats@);
    Ok(out)
}

} // verus!
