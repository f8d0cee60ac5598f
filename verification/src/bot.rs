//! The bot's own logic around the chat surface: boot configuration, the
//! dialogue state it keeps, how command arguments and button data read.

use vstd::prelude::*;
use crate::post::PostId;
use crate::tag_rule::{
    parse_error_text, parse_list_spec, terms_result, terms_view, Lit, TagLiteral, TagRuleParseError,
    TagTerm,
};
use crate::text::{
    chars_of, clone_strings, decimal, join, lemma_join_push, parse_i64, parse_i64_spec, parse_u64,
    parse_u64_chars, parse_u64_spec, push_char, push_signed_decimal, push_str, signed_decimal,
    split_words, string_of, trim_bounds, trimmed, views, words, is_ws,
};
use crate::user::{role_name, Role, TelegramId, User};

verus! {

// -------------------------------------------------------------- config ----

/// `base` joined with `rel` the way a Unix path is extended: an absolute
/// `rel` replaces, otherwise a `/` separates them when needed.
pub open spec fn path_join(base: Seq<char>, rel: Seq<char>) -> Seq<char> {
    if rel.len() > 0 && rel[0] == '/' {
        rel
    } else if base.len() == 0 {
        rel
    } else if base.last() == '/' {
        base + rel
    } else {
        base + seq!['/'] + rel
    }
}

pub fn join_path(base: &str, rel: &str) -> (p: String)
    ensures
        p@ == path_join(base@, rel@),
{
    let r = chars_of(rel);
    let b = chars_of(base);
    let mut p = String::new();
    if r.len() > 0 && r[0] == '/' {
        push_str(&mut p, rel);
        return p;
    }
    if b.len() == 0 {
        push_str(&mut p, rel);
        return p;
    }
    push_str(&mut p, base);
    if b[b.len() - 1] != '/' {
        push_char(&mut p, '/');
    }
    push_str(&mut p, rel);
    p
}

/// Boot configuration.
#[derive(Debug, Clone)]
pub struct AppConfig {
    pub vault_env_dir: String,
    pub database_url: String,
    pub owner_id: TelegramId,
    pub health_addr: String,
    /// Public HTTPS URL of the Mini App.
    pub webapp_url: Option<String>,
    /// Directory with the built web bundle to serve.
    pub webapp_dir: Option<String>,
}

/// The configured owner when none is given.
pub const DEFAULT_OWNER_ID: i64 = 1402476143;

pub open spec fn or_default(v: Option<String>, d: Seq<char>) -> Seq<char> {
    match v {
        Some(s) => s@,
        None => d,
    }
}

pub open spec fn non_empty(v: Option<String>) -> Option<Seq<char>> {
    match v {
        Some(s) => if s@.len() > 0 { Some(s@) } else { None },
        None => None,
    }
}

pub open spec fn opt_view(v: Option<String>) -> Option<Seq<char>> {
    match v {
        Some(s) => Some(s@),
        None => None,
    }
}

fn value_or(v: Option<String>, d: &str) -> (s: String)
    ensures
        s@ == or_default(v, d@),
{
    match v {
        Some(s) => s,
        None => d.to_owned(),
    }
}

fn non_empty_of(v: Option<String>) -> (r: Option<String>)
    ensures
        opt_view(r) == non_empty(v),
{
    match v {
        Some(s) => if chars_of(s.as_str()).len() > 0 {
            Some(s)
        } else {
            None
        },
        None => None,
    }
}

impl AppConfig {
    /// The configuration from the environment's values (`None` for unset):
    /// `YCB_ENV`, `YCB_VAULT_DIR`, `YCB_DATABASE_URL`, `YCB_OWNER_ID`,
    /// `YCB_HEALTH_ADDR`, `YCB_WEBAPP_URL`, `YCB_WEBAPP_DIR`.
    pub fn from_values(
        env: Option<String>,
        vault_dir: Option<String>,
        database_url: Option<String>,
        owner_id: Option<String>,
        health_addr: Option<String>,
        webapp_url: Option<String>,
        webapp_dir: Option<String>,
    ) -> (c: AppConfig)
        ensures
            ({
                let root = or_default(vault_dir, "config/vault"@);
                &&& c.vault_env_dir@ == path_join(root, or_default(env, "development"@))
                &&& c.database_url@ == (match database_url {
                    Some(u) => u@,
                    None => "sqlite:"@ + path_join(root, "storage/rust-bot.sqlite"@),
                })
                &&& c.owner_id == TelegramId(match owner_id {
                    Some(o) => match parse_i64_spec(o@) {
                        Some(n) => n,
                        None => DEFAULT_OWNER_ID,
                    },
                    None => DEFAULT_OWNER_ID,
                })
                &&& c.health_addr@ == or_default(health_addr, "0.0.0.0:3000"@)
                &&& opt_view(c.webapp_url) == non_empty(webapp_url)
                &&& opt_view(c.webapp_dir) == (match non_empty(webapp_dir) {
                    Some(d) => Some(d),
                    None => Some("webapp/build"@),
                })
            }),
    {
        let env = value_or(env, "development");
        let root = value_or(vault_dir, "config/vault");
        let database_url = match database_url {
            Some(u) => u,
            None => {
                let mut s = String::new();
                push_str(&mut s, "sqlite:");
                let p = join_path(root.as_str(), "storage/rust-bot.sqlite");
                push_str(&mut s, p.as_str());
                s
            },
        };
        let owner = match owner_id {
            Some(o) => match parse_i64(o.as_str()) {
                Some(n) => n,
                None => DEFAULT_OWNER_ID,
            },
            None => DEFAULT_OWNER_ID,
        };
        let health_addr = value_or(health_addr, "0.0.0.0:3000");
        let webapp_url = non_empty_of(webapp_url);
        let webapp_dir = match non_empty_of(webapp_dir) {
            Some(d) => Some(d),
            None => Some("webapp/build".to_owned()),
        };
        AppConfig {
            vault_env_dir: join_path(root.as_str(), env.as_str()),
            database_url,
            owner_id: TelegramId(owner),
            health_addr,
            webapp_url,
            webapp_dir,
        }
    }

    /// Where the main bot token is kept.
    pub fn token_path(&self) -> (p: String)
        ensures
            p@ == path_join(self.vault_env_dir@, "token.txt"@),
    {
        join_path(self.vault_env_dir.as_str(), "token.txt")
    }
}

// ------------------------------------------------------------ dialogues ----

/// A channel forward's origin, for the copy once tags arrive.
#[derive(Debug, Clone)]
pub struct PendingForward {
    pub origin_chat_id: i64,
    pub origin_message_id: i32,
    pub channel_username: String,
}

/// A submission waiting for its tags, keyed by the submitter.
#[derive(Debug, Clone)]
pub struct PendingSubmission {
    pub url: String,
    pub forward: Option<PendingForward>,
    /// A moderator's direct feed add rather than a suggestion.
    pub direct_add: bool,
}

/// A moderator's paging position within their last browse query.
#[derive(Debug, Clone)]
pub struct BrowseSession {
    pub tags: Vec<String>,
    /// The next e621 page to fetch.
    pub next_page: u32,
    pub count: usize,
}

/// A viewer report awaiting its reason. `armed_at` is a monotonic clock
/// reading in milliseconds.
#[derive(Debug, Clone)]
pub struct PendingReport {
    pub post_id: PostId,
    pub armed_at: u64,
    /// The reporter's @username when the dialogue was armed.
    pub username: Option<String>,
}

/// What a moderator's next message means.
#[derive(Debug, Clone, Copy, PartialEq, Eq, Structural)]
pub enum ModerationDialogue {
    /// The rejection reason, relayed to the submitter.
    RejectReason(PostId),
    /// Extra tags to merge before accepting into the feed.
    ExtraTags(PostId),
    /// Changes the submitter should make.
    RequestChanges(PostId),
}

/// How long a reporter gets to give a reason before the report files
/// without one.
pub const REPORT_REASON_TIMEOUT_MS: u64 = 300_000;

/// The report dialogue armed at `armed_at` has run out at `now`.
pub fn report_expired(p: &PendingReport, now: u64) -> (b: bool)
    ensures
        b == (now >= p.armed_at && now - p.armed_at >= REPORT_REASON_TIMEOUT_MS),
{
    now >= p.armed_at && now - p.armed_at >= REPORT_REASON_TIMEOUT_MS
}

/// The dialogues waiting on one person's next message.
#[derive(Debug, Clone, Copy)]
pub struct InFlight {
    pub moderation: Option<ModerationDialogue>,
    pub report: bool,
    pub more: bool,
    pub submission: bool,
}

/// What a person's next message settles.
#[derive(Debug)]
pub enum DialogueStep {
    /// Reject the post, relaying this reason.
    RejectWith(PostId, String),
    /// Ask the submitter for these changes.
    ChangesWith(PostId, String),
    /// Accept the post with these extra tags.
    AcceptWithTags(PostId, Vec<String>),
    /// The moderation dialogue ends with the post untouched; say this.
    ModerationAborted(String),
    /// File the waiting report with this reason.
    FileReport(String),
    /// The report keeps waiting for its reason; say this.
    ReasonNeeded(String),
    /// Relay this "more like this" wish.
    RelayWish(String),
    /// The wish dialogue ends without a wish.
    WishDropped,
    /// Complete the waiting submission with these tags.
    SubmitWithTags(Vec<String>),
    /// The submission keeps waiting for its tags; say this.
    TagsNeeded(String),
    /// No dialogue is waiting.
    Silent,
}

pub enum DialogueStepView {
    RejectWith(PostId, Seq<char>),
    ChangesWith(PostId, Seq<char>),
    AcceptWithTags(PostId, Seq<Seq<char>>),
    ModerationAborted(Seq<char>),
    FileReport(Seq<char>),
    ReasonNeeded(Seq<char>),
    RelayWish(Seq<char>),
    WishDropped,
    SubmitWithTags(Seq<Seq<char>>),
    TagsNeeded(Seq<char>),
    Silent,
}

impl View for DialogueStep {
    type V = DialogueStepView;

    open spec fn view(&self) -> DialogueStepView {
        match self {
            DialogueStep::RejectWith(p, s) => DialogueStepView::RejectWith(*p, s@),
            DialogueStep::ChangesWith(p, s) => DialogueStepView::ChangesWith(*p, s@),
            DialogueStep::AcceptWithTags(p, ts) => DialogueStepView::AcceptWithTags(*p, views(ts@)),
            DialogueStep::ModerationAborted(s) => DialogueStepView::ModerationAborted(s@),
            DialogueStep::FileReport(s) => DialogueStepView::FileReport(s@),
            DialogueStep::ReasonNeeded(s) => DialogueStepView::ReasonNeeded(s@),
            DialogueStep::RelayWish(s) => DialogueStepView::RelayWish(s@),
            DialogueStep::WishDropped => DialogueStepView::WishDropped,
            DialogueStep::SubmitWithTags(ts) => DialogueStepView::SubmitWithTags(views(ts@)),
            DialogueStep::TagsNeeded(s) => DialogueStepView::TagsNeeded(s@),
            DialogueStep::Silent => DialogueStepView::Silent,
        }
    }
}

/// At most the first `n` characters.
pub open spec fn at_most(s: Seq<char>, n: nat) -> Seq<char> {
    if s.len() <= n { s } else { s.take(n as int) }
}

/// What a message settles: a moderation follow-up first, then a report
/// waiting for its reason, then a "more like this" wish, then a submission
/// waiting for its tags. Reasons and wishes are trimmed and kept to 500
/// characters.
pub open spec fn dialogue_spec(f: InFlight, text: Seq<char>) -> DialogueStepView {
    match f.moderation {
        Some(ModerationDialogue::RejectReason(p)) => if trimmed(text).len() == 0 {
            DialogueStepView::ModerationAborted("Empty reason — post left untouched. Press the button again to retry."@)
        } else {
            DialogueStepView::RejectWith(p, trimmed(text))
        },
        Some(ModerationDialogue::RequestChanges(p)) => if trimmed(text).len() == 0 {
            DialogueStepView::ModerationAborted("Empty message — post left untouched. Press the button again to retry."@)
        } else {
            DialogueStepView::ChangesWith(p, trimmed(text))
        },
        Some(ModerationDialogue::ExtraTags(p)) => if words(text).len() == 0 {
            DialogueStepView::ModerationAborted("No tags given — post left untouched. Press the button again to retry."@)
        } else {
            DialogueStepView::AcceptWithTags(p, words(text))
        },
        None => if f.report {
            if trimmed(text).len() == 0 {
                DialogueStepView::ReasonNeeded("I need a reason — a few words is fine."@)
            } else {
                DialogueStepView::FileReport(at_most(trimmed(text), 500))
            }
        } else if f.more {
            if trimmed(text).len() == 0 {
                DialogueStepView::WishDropped
            } else {
                DialogueStepView::RelayWish(at_most(trimmed(text), 500))
            }
        } else if f.submission {
            if words(text).len() == 0 {
                DialogueStepView::TagsNeeded("I need at least one tag — try `wolf male solo`."@)
            } else {
                DialogueStepView::SubmitWithTags(words(text))
            }
        } else {
            DialogueStepView::Silent
        },
    }
}

fn trimmed_text(text: &str) -> (s: Vec<char>)
    ensures
        s@ == trimmed(text@),
{
    let v = chars_of(text);
    let (a, b) = trim_bounds(&v);
    crate::text::sub_vec(&v, a, b)
}

fn first_chars(v: &Vec<char>, n: usize) -> (s: String)
    ensures
        s@ == at_most(v@, n as nat),
{
    let m = if v.len() <= n { v.len() } else { n };
    let s = string_of(v, 0, m);
    assert(v@.subrange(0, m as int) =~= at_most(v@, n as nat));
    s
}

/// Settle the dialogue a message answers.
pub fn dialogue_step(f: InFlight, text: &str) -> (r: DialogueStep)
    ensures
        r@ == dialogue_spec(f, text@),
{
    match f.moderation {
        Some(ModerationDialogue::RejectReason(p)) => {
            let t = trimmed_text(text);
            if t.len() == 0 {
                return DialogueStep::ModerationAborted(
                    "Empty reason — post left untouched. Press the button again to retry.".to_owned(),
                );
            }
            let s = string_of(&t, 0, t.len());
            assert(t@.subrange(0, t.len() as int) =~= t@);
            return DialogueStep::RejectWith(p, s);
        },
        Some(ModerationDialogue::RequestChanges(p)) => {
            let t = trimmed_text(text);
            if t.len() == 0 {
                return DialogueStep::ModerationAborted(
                    "Empty message — post left untouched. Press the button again to retry.".to_owned(),
                );
            }
            let s = string_of(&t, 0, t.len());
            assert(t@.subrange(0, t.len() as int) =~= t@);
            return DialogueStep::ChangesWith(p, s);
        },
        Some(ModerationDialogue::ExtraTags(p)) => {
            let ws = split_words(text);
            if ws.len() == 0 {
                return DialogueStep::ModerationAborted(
                    "No tags given — post left untouched. Press the button again to retry.".to_owned(),
                );
            }
            return DialogueStep::AcceptWithTags(p, ws);
        },
        None => {},
    }
    if f.report {
        let t = trimmed_text(text);
        if t.len() == 0 {
            return DialogueStep::ReasonNeeded("I need a reason — a few words is fine.".to_owned());
        }
        return DialogueStep::FileReport(first_chars(&t, 500));
    }
    if f.more {
        let t = trimmed_text(text);
        if t.len() == 0 {
            return DialogueStep::WishDropped;
        }
        return DialogueStep::RelayWish(first_chars(&t, 500));
    }
    if f.submission {
        let ws = split_words(text);
        if ws.len() == 0 {
            return DialogueStep::TagsNeeded("I need at least one tag — try `wolf male solo`.".to_owned());
        }
        return DialogueStep::SubmitWithTags(ws);
    }
    DialogueStep::Silent
}

// --------------------------------------------------------------- parsing ----

/// `s` without its leading `c`s.
pub open spec fn differs_from(s: Seq<char>, c: char) -> spec_fn(int) -> bool {
    |k: int| s[k] != c
}

pub open spec fn strip_leading(s: Seq<char>, c: char) -> Seq<char> {
    s.skip(crate::text::first_idx(0, s.len() as int, differs_from(s, c)))
}

/// `/cmd <post-id>`: trimmed, leading `#`s dropped, a `u64`.
pub open spec fn post_id_spec(arg: Seq<char>) -> Option<PostId> {
    match parse_u64_spec(strip_leading(trimmed(arg), '#')) {
        Some(n) => Some(PostId(n)),
        None => None,
    }
}

pub fn parse_post_id(arg: &str) -> (r: Option<PostId>)
    ensures
        r == post_id_spec(arg@),
{
    let v = chars_of(arg);
    let (a, b) = trim_bounds(&v);
    let ghost t = v@.subrange(a as int, b as int);
    let ghost p = differs_from(t, '#');
    let mut i = a;
    while i < b && v[i] == '#'
        invariant
            a <= i <= b <= v.len(),
            t == v@.subrange(a as int, b as int),
            p == differs_from(t, '#'),
            forall|q: int| 0 <= q < i - a ==> !#[trigger] p(q),
        decreases b - i,
    {
        i = i + 1;
    }
    proof {
        crate::text::lemma_first_idx_is(0, i - a, t.len() as int, p);
        assert(t.skip(i - a) =~= v@.subrange(i as int, b as int));
    }
    match parse_u64_chars(&v, i, b) {
        Some(n) => Some(PostId(n)),
        None => None,
    }
}

/// A user as `/postinfo` shows them.
pub open spec fn describe_user_spec(u: Option<User>) -> Seq<char> {
    match u {
        None => "—"@,
        Some(user) => (match user.display_name {
            Some(n) => n@,
            None => "unnamed"@,
        }) + " (id "@ + signed_decimal(user.telegram_id.0 as int) + ", "@ + role_name(user.role) + ")"@,
    }
}

pub fn describe_user(user: &Option<User>) -> (s: String)
    ensures
        s@ == describe_user_spec(*user),
{
    let mut s = String::new();
    match user {
        None => push_str(&mut s, "—"),
        Some(u) => {
            match &u.display_name {
                Some(n) => push_str(&mut s, n.as_str()),
                None => push_str(&mut s, "unnamed"),
            }
            push_str(&mut s, " (id ");
            push_signed_decimal(&mut s, u.telegram_id.0);
            push_str(&mut s, ", ");
            let role = u.role.to_string();
            push_str(&mut s, role.as_str());
            push_str(&mut s, ")");
        },
    }
    s
}

/// Tags as stored: space-joined.
pub fn join_tags(tags: &Vec<String>) -> (s: String)
    ensures
        s@ == join(views(tags@), seq![' ']),
{
    let ghost parts = views(tags@);
    let mut s = String::new();
    let mut k: usize = 0;
    while k < tags.len()
        invariant
            k <= tags.len(),
            parts == views(tags@),
            s@ == join(parts.take(k as int), seq![' ']),
        decreases tags.len() - k,
    {
        proof {
            lemma_join_push(parts.take(k as int), parts[k as int], seq![' ']);
            assert(parts.take(k + 1) =~= parts.take(k as int).push(parts[k as int]));
        }
        if k > 0 {
            push_char(&mut s, ' ');
        }
        push_str(&mut s, tags[k].as_str());
        k = k + 1;
    }
    assert(parts.take(tags.len() as int) =~= parts);
    s
}

/// Tags that can be stored joined by spaces: non-empty, without
/// whitespace.
pub open spec fn storable_tags(ts: Seq<Seq<char>>) -> bool {
    &&& forall|q: int| 0 <= q < ts.len() ==> (#[trigger] ts[q]).len() > 0
    &&& forall|q: int, k: int| 0 <= q < ts.len() && 0 <= k < ts[q].len() ==> !is_ws(#[trigger] ts[q][k])
}

proof fn lemma_words_of_joined(s: Seq<char>, i: int, ts: Seq<Seq<char>>)
    requires
        0 <= i <= s.len(),
        s.skip(i) == join(ts, seq![' ']),
        storable_tags(ts),
    ensures
        crate::text::words_from(s, i) == ts,
    decreases ts.len(),
{
    if ts.len() == 0 {
        assert(s.skip(i).len() == 0);
    } else {
        crate::rule_text::lemma_join_front(ts, seq![' ']);
        let t0 = ts[0];
        let b = i + t0.len();
        assert(t0.len() > 0);
        assert(s.skip(i).len() >= t0.len()) by {
            if ts.len() > 1 {
                assert(join(ts, seq![' ']) == t0 + seq![' '] + join(ts.drop_first(), seq![' ']));
            }
        }
        assert forall|k: int| i <= k < b implies s[k] == t0[k - i] by {
            assert(join(ts, seq![' '])[k - i] == t0[k - i]) by {
                if ts.len() > 1 {
                    assert(join(ts, seq![' ']) == t0 + seq![' '] + join(ts.drop_first(), seq![' ']));
                }
            }
            assert(s.skip(i)[k - i] == s[k]);
        }
        let pa = |k: int| !is_ws(s[k]);
        assert(pa(i)) by {
            assert(s[i] == t0[0]);
            assert(!is_ws(ts[0][0]));
        }
        crate::text::lemma_first_idx_is(i, i, s.len() as int, pa);
        let pb = |k: int| is_ws(s[k]);
        assert forall|k: int| i <= k < b implies !#[trigger] pb(k) by {
            assert(s[k] == ts[0][k - i]);
            assert(!is_ws(ts[0][k - i]));
        }
        if ts.len() == 1 {
            assert(b == s.len());
            crate::text::lemma_first_idx_is(i, b, s.len() as int, pb);
            assert(s.subrange(i, b) =~= t0);
            assert(crate::text::words_from(s, b) == Seq::<Seq<char>>::empty());
            assert(crate::text::words_from(s, i) =~= seq![t0]);
        } else {
            let rest = ts.drop_first();
            assert(s[b] == ' ') by {
                assert(s.skip(i)[t0.len() as int] == ' ');
            }
            assert(pb(b));
            crate::text::lemma_first_idx_is(i, b, s.len() as int, pb);
            assert(s.subrange(i, b) =~= t0);
            assert(s.skip(b + 1) =~= join(rest, seq![' '])) by {
                let j = join(rest, seq![' ']);
                assert(s.skip(i) == t0 + seq![' '] + j);
                assert(s.len() == i + t0.len() + 1 + j.len());
                assert forall|k: int| 0 <= k < j.len() implies s.skip(b + 1)[k] == j[k] by {
                    assert(s.skip(b + 1)[k] == s[b + 1 + k]);
                    assert(s[b + 1 + k] == s.skip(i)[t0.len() + 1 + k]);
                    assert((t0 + seq![' '] + j)[t0.len() + 1 + k] == j[k]);
                }
            }
            assert(storable_tags(rest)) by {
                assert forall|q: int| 0 <= q < rest.len() implies (#[trigger] rest[q]).len() > 0 by {
                    assert(rest[q] == ts[q + 1]);
                }
                assert forall|q: int, k: int| 0 <= q < rest.len() && 0 <= k < rest[q].len() implies !is_ws(#[trigger] rest[q][k]) by {
                    assert(rest[q] == ts[q + 1]);
                    assert(ts[q + 1][k] == rest[q][k]);
                }
            }
            lemma_words_of_joined(s, b + 1, rest);
            assert(rest[0].len() > 0 && !is_ws(rest[0][0])) by {
                assert(rest[0] == ts[1]);
            }
            assert(s[b + 1] == rest[0][0]) by {
                assert(s.skip(b + 1)[0] == s[b + 1]);
                crate::rule_text::lemma_join_front(rest, seq![' ']);
            }
            // from b, the whitespace at b is skipped and the next word starts at b + 1
            crate::text::lemma_first_idx_is(b, b + 1, s.len() as int, pa);
            crate::text::lemma_first_idx_is(b + 1, b + 1, s.len() as int, pa);
            assert(crate::text::skip_ws(s, b, s.len() as int) == crate::text::skip_ws(s, b + 1, s.len() as int));
            assert(crate::text::words_from(s, b) == crate::text::words_from(s, b + 1));
            assert(crate::text::words_from(s, i) =~= seq![t0] + rest);
            assert(seq![t0] + rest =~= ts);
        }
    }
}

/// Storable tags read back from their stored form unchanged.
pub proof fn lemma_tags_roundtrip(ts: Seq<Seq<char>>)
    requires
        storable_tags(ts),
    ensures
        words(join(ts, seq![' '])) == ts,
{
    let s = join(ts, seq![' ']);
    assert(s.skip(0) =~= s);
    lemma_words_of_joined(s, 0, ts);
}

/// Stored tags back as a list.
pub fn split_tags(joined: &str) -> (tags: Vec<String>)
    ensures
        views(tags@) == words(joined@),
{
    split_words(joined)
}

/// Tags as the web API lists them.
pub fn tags_json(tags: &Vec<String>) -> (r: Vec<String>)
    ensures
        views(r@) == views(tags@),
{
    clone_strings(tags)
}

/// The words of every entry, in order.
pub open spec fn all_words(list: Seq<Seq<char>>) -> Seq<Seq<char>>
    decreases list.len(),
{
    if list.len() == 0 {
        seq![]
    } else {
        all_words(list.drop_last()) + words(list.last())
    }
}

/// Tags from a web API list whose entries may hold several tags each.
pub fn parse_tags(list: &Vec<String>) -> (tags: Vec<String>)
    ensures
        views(tags@) == all_words(views(list@)),
{
    let mut tags: Vec<String> = Vec::new();
    let mut k: usize = 0;
    while k < list.len()
        invariant
            k <= list.len(),
            views(tags@) == all_words(views(list@).take(k as int)),
        decreases list.len() - k,
    {
        assert(views(list@).take(k + 1).drop_last() =~= views(list@).take(k as int));
        assert(views(list@).take(k + 1).last() == list@[k as int]@);
        let words = split_words(list[k].as_str());
        let ghost before = tags@;
        let mut j: usize = 0;
        while j < words.len()
            invariant
                j <= words.len(),
                views(tags@) == views(before) + views(words@).take(j as int),
            decreases words.len() - j,
        {
            let ghost mid = tags@;
            tags.push(words[j].clone());
            assert(views(tags@) =~= views(mid).push(words@[j as int]@));
            assert(views(words@).take(j + 1) =~= views(words@).take(j as int).push(words@[j as int]@));
            j = j + 1;
        }
        assert(views(words@).take(words.len() as int) =~= views(words@));
        k = k + 1;
    }
    assert(views(list@).take(list.len() as int) =~= views(list@));
    tags
}

/// The web API's default page.
pub fn one() -> (n: u32)
    ensures
        n == 1,
{
    1
}

/// The web API's default page size.
pub fn ten() -> (n: usize)
    ensures
        n == 10,
{
    10
}

/// A tag list's subscription and forbidden parts: single `-tag` terms are
/// forbidden tags, every other term (tags, OR-groups) is subscribed.
pub open spec fn split_terms(ts: Seq<Seq<Lit>>) -> (Seq<Seq<Lit>>, Seq<Seq<char>>)
    decreases ts.len(),
{
    if ts.len() == 0 {
        (seq![], seq![])
    } else {
        let (sub, forb) = split_terms(ts.drop_last());
        let t = ts.last();
        if t.len() == 1 && t[0].0 { (sub, forb.push(t[0].1)) } else { (sub.push(t), forb) }
    }
}

pub open spec fn has_bracket(s: Seq<char>) -> bool {
    exists|i: int| 0 <= i < s.len() && (s[i] == '[' || s[i] == ']')
}

pub open spec fn rule_hint_text() -> Seq<char> {
    "That looks like a conditional rule — [if]->[then] rules go in /setrules, not here."@
}

/// Read `/newposter`-style tag words: `tag`, `-tag` and `(a b)` groups.
/// Brackets are refused (rules go elsewhere); a syntax error is reported
/// in words.
pub fn parse_tag_lists(parts: &Vec<String>) -> (r: Result<(Vec<TagTerm>, Vec<String>), String>)
    ensures
        ({
            let raw = join(views(parts@), seq![' ']);
            if has_bracket(raw) {
                r is Err && r->Err_0@ == rule_hint_text()
            } else {
                match parse_list_spec(raw) {
                    Err(e) => r is Err && r->Err_0@ == "Bad tag syntax: "@ + parse_error_text(e),
                    Ok(ts) => r is Ok && (terms_view(r->Ok_0.0@), views(r->Ok_0.1@)) == split_terms(ts),
                }
            }
        }),
{
    let raw = join_tags(parts);
    let v = chars_of(raw.as_str());
    let mut k: usize = 0;
    while k < v.len()
        invariant
            k <= v.len(),
            v@ == raw@,
            raw@ == join(views(parts@), seq![' ']),
            forall|i: int| 0 <= i < k ==> !(v@[i] == '[' || v@[i] == ']'),
        decreases v.len() - k,
    {
        if v[k] == '[' || v[k] == ']' {
            assert(0 <= k < raw@.len() && (raw@[k as int] == '[' || raw@[k as int] == ']'));
            assert(has_bracket(raw@));
            let mut msg = String::new();
            push_str(&mut msg, "That looks like a conditional rule — [if]->[then] rules go in /setrules, not here.");
            assert(msg@ =~= rule_hint_text());
            return Err(msg);
        }
        k = k + 1;
    }
    let terms = match TagTerm::parse_list(raw.as_str()) {
        Ok(t) => t,
        Err(e) => {
            let mut msg = String::new();
            push_str(&mut msg, "Bad tag syntax: ");
            let text = e.to_string();
            push_str(&mut msg, text.as_str());
            return Err(msg);
        },
    };
    let ghost ts = terms_view(terms@);
    let mut subscribed: Vec<TagTerm> = Vec::new();
    let mut forbidden: Vec<String> = Vec::new();
    let mut i: usize = 0;
    while i < terms.len()
        invariant
            i <= terms.len(),
            ts == terms_view(terms@),
            (terms_view(subscribed@), views(forbidden@)) == split_terms(ts.take(i as int)),
        decreases terms.len() - i,
    {
        assert(ts.take(i + 1).drop_last() =~= ts.take(i as int));
        assert(ts.take(i + 1).last() == terms@[i as int]@);
        let term = &terms[i];
        let single_lacks = term.0.len() == 1 && match &term.0[0] {
            TagLiteral::Lacks(_) => true,
            TagLiteral::Has(_) => false,
        };
        if single_lacks {
            match &term.0[0] {
                TagLiteral::Lacks(tag) => {
                    let ghost before = forbidden@;
                    forbidden.push(tag.clone());
                    assert(views(forbidden@) =~= views(before).push(tag@));
                },
                TagLiteral::Has(_) => {},
            }
        } else {
            let ghost before = subscribed@;
            subscribed.push(term.copy());
            assert(terms_view(subscribed@) =~= terms_view(before).push(term@));
        }
        i = i + 1;
    }
    assert(ts.take(terms.len() as int) =~= ts);
    Ok((subscribed, forbidden))
}

// -------------------------------------------------------------- commands ----

/// The chat commands.
#[derive(Debug, Clone)]
pub enum Command {
    Start(String),
    Help,
    Suggest(String),
    Queue,
    Approve(String),
    Reject(String),
    Delete(String),
    Postinfo(String),
    Feedafter(String),
    Ban(String),
    Unban(String),
    Browse(String),
    Save(String),
    Forbidtag(String),
    Unforbidtag(String),
    Requiretag(String),
    Unrequiretag(String),
    Spoilertag(String),
    Unspoilertag(String),
    Listtags,
    Setrole(String),
    Newposter(String),
    Setchannel(String),
    Settags(String),
    Addtags(String),
    Deltags(String),
    Setinterval(String),
    Setrules(String),
    Addrules(String),
    Delrules(String),
    Delposter(String),
    Posters,
    Nextpost(String),
    Highscore,
    Apitoken,
    Scoreboards(String),
    Announcements(String),
    Spotlight(String),
    Announcemute(String),
    Announceunmute(String),
}

pub open spec fn command_label(cmd: Command) -> Seq<char> {
    match cmd {
        Command::Start(_) => "start"@,
        Command::Help => "help"@,
        Command::Suggest(_) => "suggest"@,
        Command::Queue => "queue"@,
        Command::Approve(_) => "approve"@,
        Command::Reject(_) => "reject"@,
        Command::Delete(_) => "delete"@,
        Command::Postinfo(_) => "postinfo"@,
        Command::Feedafter(_) => "feedafter"@,
        Command::Ban(_) => "ban"@,
        Command::Unban(_) => "unban"@,
        Command::Browse(_) => "browse"@,
        Command::Save(_) => "save"@,
        Command::Forbidtag(_) => "forbidtag"@,
        Command::Unforbidtag(_) => "unforbidtag"@,
        Command::Requiretag(_) => "requiretag"@,
        Command::Unrequiretag(_) => "unrequiretag"@,
        Command::Spoilertag(_) => "spoilertag"@,
        Command::Unspoilertag(_) => "unspoilertag"@,
        Command::Listtags => "listtags"@,
        Command::Setrole(_) => "setrole"@,
        Command::Newposter(_) => "newposter"@,
        Command::Setchannel(_) => "setchannel"@,
        Command::Settags(_) => "settags"@,
        Command::Addtags(_) => "addtags"@,
        Command::Deltags(_) => "deltags"@,
        Command::Setinterval(_) => "setinterval"@,
        Command::Setrules(_) => "setrules"@,
        Command::Addrules(_) => "addrules"@,
        Command::Delrules(_) => "delrules"@,
        Command::Delposter(_) => "delposter"@,
        Command::Posters => "posters"@,
        Command::Nextpost(_) => "nextpost"@,
        Command::Highscore => "highscore"@,
        Command::Apitoken => "apitoken"@,
        Command::Scoreboards(_) => "scoreboards"@,
        Command::Announcements(_) => "announcements"@,
        Command::Spotlight(_) => "spotlight"@,
        Command::Announcemute(_) => "announcemute"@,
        Command::Announceunmute(_) => "announceunmute"@,
    }
}

/// A stable label per command, for logs.
pub fn command_name(cmd: &Command) -> (s: &'static str)
    ensures
        s@ == command_label(*cmd),
{
    match cmd {
        Command::Start(_) => "start",
        Command::Help => "help",
        Command::Suggest(_) => "suggest",
        Command::Queue => "queue",
        Command::Approve(_) => "approve",
        Command::Reject(_) => "reject",
        Command::Delete(_) => "delete",
        Command::Postinfo(_) => "postinfo",
        Command::Feedafter(_) => "feedafter",
        Command::Ban(_) => "ban",
        Command::Unban(_) => "unban",
        Command::Browse(_) => "browse",
        Command::Save(_) => "save",
        Command::Forbidtag(_) => "forbidtag",
        Command::Unforbidtag(_) => "unforbidtag",
        Command::Requiretag(_) => "requiretag",
        Command::Unrequiretag(_) => "unrequiretag",
        Command::Spoilertag(_) => "spoilertag",
        Command::Unspoilertag(_) => "unspoilertag",
        Command::Listtags => "listtags",
        Command::Setrole(_) => "setrole",
        Command::Newposter(_) => "newposter",
        Command::Setchannel(_) => "setchannel",
        Command::Settags(_) => "settags",
        Command::Addtags(_) => "addtags",
        Command::Deltags(_) => "deltags",
        Command::Setinterval(_) => "setinterval",
        Command::Setrules(_) => "setrules",
        Command::Addrules(_) => "addrules",
        Command::Delrules(_) => "delrules",
        Command::Delposter(_) => "delposter",
        Command::Posters => "posters",
        Command::Nextpost(_) => "nextpost",
        Command::Highscore => "highscore",
        Command::Apitoken => "apitoken",
        Command::Scoreboards(_) => "scoreboards",
        Command::Announcements(_) => "announcements",
        Command::Spotlight(_) => "spotlight",
        Command::Announcemute(_) => "announcemute",
        Command::Announceunmute(_) => "announceunmute",
    }
}

// -------------------------------------------------------------- browse ----

/// `/browse [count] tags…`: an optional leading count from 1 to 20 (5 when
/// absent or out of range, in which case the word is a tag), then the tags.
pub open spec fn browse_args_spec(arg: Seq<char>) -> (usize, Seq<Seq<char>>) {
    let ws = words(arg);
    if ws.len() > 0 && parse_u64_spec(ws[0]) is Some && 1 <= parse_u64_spec(ws[0])->0 <= 20 {
        (parse_u64_spec(ws[0])->0 as usize, ws.drop_first())
    } else {
        (5, ws)
    }
}

pub fn browse_args(arg: &str) -> (r: (usize, Vec<String>))
    ensures
        (r.0, views(r.1@)) == browse_args_spec(arg@),
{
    let mut ws = split_words(arg);
    if ws.len() > 0 {
        match parse_u64(ws[0].as_str()) {
            Some(n) => if 1 <= n && n <= 20 {
                let ghost before = views(ws@);
                ws.remove(0);
                assert(views(ws@) =~= before.drop_first());
                return (n as usize, ws);
            },
            None => {},
        }
    }
    (5, ws)
}


// ------------------------------------------------------------ commands ----

/// What comes before the first `@` of `s` (all of `s` when it has none).
pub open spec fn before_at(s: Seq<char>) -> Seq<char>
    decreases s.len(),
{
    if s.len() == 0 {
        s
    } else if s[0] == '@' {
        Seq::empty()
    } else {
        seq![s[0]] + before_at(s.drop_first())
    }
}

/// The command a message opens with: its first word, which starts with
/// `/`, without that slash and without an `@botname` suffix.
pub open spec fn command_word_spec(text: Seq<char>) -> Option<Seq<char>> {
    let ws = words(text);
    if ws.len() > 0 && ws[0].len() > 0 && ws[0][0] == '/' {
        Some(before_at(ws[0].drop_first()))
    } else {
        None
    }
}

/// The command word of a message, `None` when the message is no command.
pub fn command_word(text: &str) -> (r: Option<String>)
    ensures
        r matches Some(w) ==> command_word_spec(text@) == Some(w@),
        r is None ==> command_word_spec(text@) is None,
{
    let ws = split_words(text);
    if ws.len() == 0 {
        return None;
    }
    assert(views(ws@)[0] == ws@[0]@);
    let first = chars_of(ws[0].as_str());
    let n = first.len();
    if n == 0 || first[0] != '/' {
        return None;
    }
    let ghost whole = first@.drop_first();
    assert(first@.subrange(1, n as int) =~= whole);
    let mut out = String::new();
    let mut i: usize = 1;
    while i < n && first[i] != '@'
        invariant
            1 <= i <= n == first@.len(),
            out@ + before_at(first@.subrange(i as int, n as int)) == before_at(whole),
        decreases n - i,
    {
        let ghost rest = first@.subrange(i as int, n as int);
        assert(rest.drop_first() =~= first@.subrange(i + 1, n as int));
        assert(out@ + seq![first@[i as int]] + before_at(rest.drop_first()) =~= out@ + before_at(rest));
        push_char(&mut out, first[i]);
        i += 1;
    }
    assert(before_at(first@.subrange(i as int, n as int)) =~= Seq::<char>::empty());
    assert(out@ =~= out@ + Seq::<char>::empty());
    Some(out)
}

} // verus!
