//! What gets delivered, and where it landed.

use vstd::prelude::*;
use crate::post::PostId;
use crate::poster::PosterId;
use crate::text::{find, lower, lowercase, push_str};

verus! {

/// Media ready for delivery.
#[derive(Debug, Clone, PartialEq, Eq)]
pub enum ResolvedMedia {
    Photo(String),
    Video(String),
    Animation(String),
    /// A link embed (the preview comes from the URL).
    Link(String),
    /// Copy an existing Telegram message.
    TelegramCopy { origin_chat_id: i64, origin_message_id: i32 },
}

/// The kind of a resolved media, which decides the caption's `#video` tag.
#[derive(Debug, Clone, Copy, PartialEq, Eq, Structural)]
pub enum MediaKind {
    Photo,
    Video,
    Animation,
    Link,
    TelegramCopy,
}

impl ResolvedMedia {
    pub open spec fn kind_spec(&self) -> MediaKind {
        match self {
            ResolvedMedia::Photo(_) => MediaKind::Photo,
            ResolvedMedia::Video(_) => MediaKind::Video,
            ResolvedMedia::Animation(_) => MediaKind::Animation,
            ResolvedMedia::Link(_) => MediaKind::Link,
            ResolvedMedia::TelegramCopy { .. } => MediaKind::TelegramCopy,
        }
    }

    pub fn kind(&self) -> (k: MediaKind)
        ensures
            k == self.kind_spec(),
    {
        match self {
            ResolvedMedia::Photo(_) => MediaKind::Photo,
            ResolvedMedia::Video(_) => MediaKind::Video,
            ResolvedMedia::Animation(_) => MediaKind::Animation,
            ResolvedMedia::Link(_) => MediaKind::Link,
            ResolvedMedia::TelegramCopy { .. } => MediaKind::TelegramCopy,
        }
    }

    /// Classify a direct media URL by its file extension: `.gif` plays as
    /// an animation, `.webm`/`.mp4` as a video, anything else is a photo.
    pub fn classify(url: String) -> (m: ResolvedMedia)
        ensures
            m.kind_spec() == classify_spec(url@),
            match m {
                ResolvedMedia::Photo(u) | ResolvedMedia::Video(u) | ResolvedMedia::Animation(u) => u@ == url@,
                _ => false,
            },
    {
        let k = media_kind_of(url.as_str());
        match k {
            MediaKind::Animation => ResolvedMedia::Animation(url),
            MediaKind::Video => ResolvedMedia::Video(url),
            _ => ResolvedMedia::Photo(url),
        }
    }
}

/// The URL up to its query or fragment.
pub open spec fn url_path_part(u: Seq<char>) -> Seq<char> {
    let q = crate::text::find_char(u, 0, u.len() as int, '?');
    let h = crate::text::find_char(u, 0, q, '#');
    u.take(h)
}

pub open spec fn ends_with(s: Seq<char>, suffix: Seq<char>) -> bool {
    suffix.len() <= s.len() && s.skip(s.len() - suffix.len()) == suffix
}

/// The media kind a URL's extension (ASCII case-insensitive) announces.
pub open spec fn classify_spec(u: Seq<char>) -> MediaKind {
    let p = lower(url_path_part(u));
    if ends_with(p, seq!['.', 'g', 'i', 'f']) {
        MediaKind::Animation
    } else if ends_with(p, seq!['.', 'w', 'e', 'b', 'm']) || ends_with(p, seq!['.', 'm', 'p', '4']) {
        MediaKind::Video
    } else {
        MediaKind::Photo
    }
}

fn ends_with_chars(s: &Vec<char>, suffix: &[char]) -> (b: bool)
    ensures
        b == ends_with(s@, suffix@),
{
    if suffix.len() > s.len() {
        return false;
    }
    let off = s.len() - suffix.len();
    let mut k: usize = 0;
    while k < suffix.len()
        invariant
            k <= suffix.len(),
            off + suffix.len() == s.len(),
            forall|i: int| 0 <= i < k ==> s@[off + i] == suffix@[i],
        decreases suffix.len() - k,
    {
        if s[off + k] != suffix[k] {
            assert(s@.skip(off as int)[k as int] != suffix@[k as int]);
            return false;
        }
        k = k + 1;
    }
    assert(s@.skip(off as int) =~= suffix@);
    true
}

/// The URL's path part, ASCII-lowercased.
fn lower_path(url: &str) -> (path: Vec<char>)
    ensures
        path@ == lower(url_path_part(url@)),
{
    let all = lowercase(url);
    let n = all.len();
    let q = find(&all, 0, n, '?');
    let h = find(&all, 0, q, '#');
    let mut path: Vec<char> = Vec::new();
    let mut i: usize = 0;
    while i < h
        invariant
            i <= h <= all.len(),
            path@ == all@.take(i as int),
        decreases h - i,
    {
        path.push(all[i]);
        assert(all@.take(i + 1) =~= all@.take(i as int).push(all@[i as int]));
        i = i + 1;
    }
    proof {
        let u = url@;
        assert(all@ == lower(u));
        assert forall|j: int| 0 <= j < u.len() implies (all@[j] == '?' <==> u[j] == '?') && (all@[j] == '#' <==> u[j] == '#') by {
            assert(all@[j] == crate::text::lower_char(u[j]));
        }
        lemma_find_same(u, all@, '?', 0, n as int);
        lemma_find_same(u, all@, '#', 0, q as int);
        assert(path@ =~= lower(url_path_part(u)));
    }
    path
}

fn media_kind_of(url: &str) -> (k: MediaKind)
    ensures
        k == classify_spec(url@),
{
    let path = lower_path(url);
    if ends_with_chars(&path, &['.', 'g', 'i', 'f']) {
        MediaKind::Animation
    } else if ends_with_chars(&path, &['.', 'w', 'e', 'b', 'm']) || ends_with_chars(&path, &['.', 'm', 'p', '4']) {
        MediaKind::Video
    } else {
        MediaKind::Photo
    }
}

/// The URL's path (ASCII case-insensitively) names a `.webm` file.
pub open spec fn is_webm_spec(u: Seq<char>) -> bool {
    ends_with(lower(url_path_part(u)), seq!['.', 'w', 'e', 'b', 'm'])
}

pub fn is_webm(url: &str) -> (b: bool)
    ensures
        b == is_webm_spec(url@),
{
    let path = lower_path(url);
    ends_with_chars(&path, &['.', 'w', 'e', 'b', 'm'])
}

/// Searching for a character that lowercasing leaves alone finds the same
/// index in the lowered text.
proof fn lemma_find_same(u: Seq<char>, l: Seq<char>, c: char, i: int, end: int)
    requires
        u.len() == l.len(),
        0 <= i <= end <= u.len(),
        forall|j: int| 0 <= j < u.len() ==> (l[j] == c <==> u[j] == c),
    ensures
        crate::text::find_char(u, i, end, c) == crate::text::find_char(l, i, end, c),
    decreases end - i,
{
    if i < end {
        lemma_find_same(u, l, c, i + 1, end);
    }
}

#[derive(Debug)]
pub enum PublisherError {
    Send(String),
}

/// A fully prepared message for delivery: media, caption and whether the
/// media goes behind the spoiler blur.
#[derive(Debug)]
pub struct PublishItem {
    pub post_id: PostId,
    pub media: ResolvedMedia,
    pub caption: Option<String>,
    pub spoiler: bool,
}

/// Where a publish landed.
#[derive(Debug, Clone, Copy, PartialEq, Eq, Structural)]
pub struct PublishReceipt {
    pub chat_id: i64,
    pub message_id: i32,
}

/// Delivers an item to its destination. Implementations live with the
/// transport (a Telegram channel in the bot).
pub trait Publisher {
    fn publish(&self, item: &PublishItem) -> Result<PublishReceipt, PublisherError>;
}

/// The caption as it goes out in a channel with a public @handle: the
/// handle closes every caption, on a line of its own after a blank line.
pub open spec fn branded_spec(caption: Option<Seq<char>>, handle: Option<Seq<char>>) -> Option<Seq<char>> {
    match (caption, handle) {
        (Some(c), Some(h)) => Some(c + "\n\n@"@ + h),
        (None, Some(h)) => Some("@"@ + h),
        (c, None) => c,
    }
}

pub open spec fn opt_text(o: Option<String>) -> Option<Seq<char>> {
    match o {
        Some(s) => Some(s@),
        None => None,
    }
}

pub fn branded_caption(caption: &Option<String>, handle: Option<&str>) -> (r: Option<String>)
    ensures
        opt_text(r) == branded_spec(opt_text(*caption), match handle { Some(h) => Some(h@), None => None }),
{
    match (caption, handle) {
        (Some(c), Some(h)) => {
            let mut s = c.clone();
            push_str(&mut s, "\n\n@");
            push_str(&mut s, h);
            Some(s)
        },
        (None, Some(h)) => {
            let mut s = String::new();
            push_str(&mut s, "@");
            push_str(&mut s, h);
            Some(s)
        },
        (c, None) => c.clone(),
    }
}

/// How an item goes out over the Bot API.
#[derive(Debug, Clone, PartialEq, Eq)]
pub enum Delivery {
    /// A native media message: the method, the field naming the media URL,
    /// the URL. A refused media message degrades to a link embed of the URL.
    Media { method: String, field: String, url: String },
    /// A text message whose preview shows the URL.
    Link(String),
    /// A copy of an existing message.
    Copy { from_chat_id: i64, message_id: i32 },
}

pub open spec fn delivery_spec(m: ResolvedMedia) -> (Seq<char>, Seq<char>, Seq<char>) {
    match m {
        ResolvedMedia::Photo(u) => ("sendPhoto"@, "photo"@, u@),
        ResolvedMedia::Video(u) => ("sendVideo"@, "video"@, u@),
        ResolvedMedia::Animation(u) => ("sendAnimation"@, "animation"@, u@),
        ResolvedMedia::Link(u) => ("sendMessage"@, "text"@, u@),
        ResolvedMedia::TelegramCopy { .. } => ("copyMessage"@, ""@, ""@),
    }
}

/// The Bot API call a media value goes out with.
pub fn delivery_of(m: &ResolvedMedia) -> (d: Delivery)
    ensures
        match *m {
            ResolvedMedia::Photo(u) | ResolvedMedia::Video(u) | ResolvedMedia::Animation(u) => match d {
                Delivery::Media { method, field, url } => (method@, field@, url@) == delivery_spec(*m),
                _ => false,
            },
            ResolvedMedia::Link(u) => d == Delivery::Link(u),
            ResolvedMedia::TelegramCopy { origin_chat_id, origin_message_id } => d == (Delivery::Copy {
                from_chat_id: origin_chat_id,
                message_id: origin_message_id,
            }),
        },
{
    match m {
        ResolvedMedia::Photo(u) => Delivery::Media { method: "sendPhoto".to_owned(), field: "photo".to_owned(), url: u.clone() },
        ResolvedMedia::Video(u) => Delivery::Media { method: "sendVideo".to_owned(), field: "video".to_owned(), url: u.clone() },
        ResolvedMedia::Animation(u) => {
            Delivery::Media { method: "sendAnimation".to_owned(), field: "animation".to_owned(), url: u.clone() }
        },
        ResolvedMedia::Link(u) => Delivery::Link(u.clone()),
        ResolvedMedia::TelegramCopy { origin_chat_id, origin_message_id } => {
            Delivery::Copy { from_chat_id: *origin_chat_id, message_id: *origin_message_id }
        },
    }
}

/// The text of a link embed: the caption, or the bare URL without one.
pub fn link_text(caption: &Option<String>, url: &str) -> (s: String)
    ensures
        s@ == match *caption {
            Some(c) => c@,
            None => url@,
        },
{
    match caption {
        Some(c) => c.clone(),
        None => url.to_owned(),
    }
}

/// One delivery of a post to a chat; `published_at` in milliseconds since
/// the Unix epoch.
#[derive(Debug, Clone, Copy, PartialEq, Eq, Structural)]
pub struct Publication {
    pub post_id: PostId,
    pub chat_id: i64,
    pub message_id: i32,
    pub published_at: i64,
}

#[derive(Debug)]
pub enum PublicationRepositoryError {
    Storage(String),
}

/// The in-memory delivery log, in recording order.
pub struct InMemoryPublicationRepository {
    publications: Vec<Publication>,
}

impl View for InMemoryPublicationRepository {
    type V = Seq<Publication>;

    closed spec fn view(&self) -> Seq<Publication> {
        self.publications@
    }
}

/// The publications of `ps` that satisfy `keep`, in order.
pub open spec fn publications_where(ps: Seq<Publication>, keep: spec_fn(Publication) -> bool) -> Seq<Publication>
    decreases ps.len(),
{
    if ps.len() == 0 {
        seq![]
    } else {
        let prev = publications_where(ps.drop_last(), keep);
        if keep(ps.last()) { prev.push(ps.last()) } else { prev }
    }
}

pub open spec fn for_post(id: PostId) -> spec_fn(Publication) -> bool {
    |p: Publication| p.post_id == id
}

pub open spec fn for_chat(chat: i64) -> spec_fn(Publication) -> bool {
    |p: Publication| p.chat_id == chat
}

impl InMemoryPublicationRepository {
    pub fn new() -> (r: Self)
        ensures
            r@ == Seq::<Publication>::empty(),
    {
        InMemoryPublicationRepository { publications: Vec::new() }
    }

    pub fn record(&mut self, publication: Publication)
        ensures
            final(self)@ == old(self)@.push(publication),
    {
        self.publications.push(publication);
    }

    fn filtered(&self, keep_post: Option<PostId>, keep_chat: Option<i64>) -> (r: Vec<Publication>)
        ensures
            keep_post is Some ==> r@ == publications_where(self@, for_post(keep_post->0)),
            keep_post is None && keep_chat is Some ==> r@ == publications_where(self@, for_chat(keep_chat->0)),
    {
        let mut r: Vec<Publication> = Vec::new();
        let mut k: usize = 0;
        while k < self.publications.len()
            invariant
                k <= self.publications.len(),
                keep_post is Some ==> r@ == publications_where(self@.take(k as int), for_post(keep_post->0)),
                keep_post is None && keep_chat is Some ==> r@ == publications_where(self@.take(k as int), for_chat(keep_chat->0)),
            decreases self.publications.len() - k,
        {
            assert(self@.take(k + 1).drop_last() =~= self@.take(k as int));
            let p = self.publications[k];
            let keep = match keep_post {
                Some(id) => p.post_id == id,
                None => match keep_chat {
                    Some(c) => p.chat_id == c,
                    None => false,
                },
            };
            if keep {
                r.push(p);
            }
            k = k + 1;
        }
        assert(self@.take(self.publications.len() as int) =~= self@);
        r
    }

    /// Every delivery of one post, in recording order.
    pub fn list_for(&self, post_id: PostId) -> (r: Vec<Publication>)
        ensures
            r@ == publications_where(self@, for_post(post_id)),
    {
        self.filtered(Some(post_id), None)
    }

    /// Everything ever published to one chat, in recording order.
    pub fn list_for_chat(&self, chat_id: i64) -> (r: Vec<Publication>)
        ensures
            r@ == publications_where(self@, for_chat(chat_id)),
    {
        self.filtered(None, Some(chat_id))
    }
}

// ------------------------------------------------------------ binding ----

/// A poster's delivery destination.
#[derive(Debug, Clone)]
pub struct PublisherConfig {
    pub poster_id: PosterId,
    pub chat_id: i64,
    /// Where the bot token for this destination is kept.
    pub token_path: String,
    /// Whether the chat receives announcements.
    pub receive_announcements: bool,
}

#[derive(Debug)]
pub enum PublisherConfigRepositoryError {
    Storage(String),
}

pub fn copy_config(c: &PublisherConfig) -> (r: PublisherConfig)
    ensures
        r == *c,
{
    PublisherConfig {
        poster_id: c.poster_id,
        chat_id: c.chat_id,
        token_path: c.token_path.clone(),
        receive_announcements: c.receive_announcements,
    }
}

/// The binding of `poster`, if any.
pub open spec fn config_for(cs: Seq<PublisherConfig>, poster: PosterId) -> Option<PublisherConfig> {
    if exists|i: int| 0 <= i < cs.len() && cs[i].poster_id == poster {
        Some(cs[choose|i: int| 0 <= i < cs.len() && cs[i].poster_id == poster])
    } else {
        None
    }
}

/// At most one binding per poster.
pub open spec fn configs_ok(cs: Seq<PublisherConfig>) -> bool {
    forall|i: int, j: int| 0 <= i < cs.len() && 0 <= j < cs.len() && i != j ==> cs[i].poster_id != cs[j].poster_id
}

/// The in-memory binding store: one binding per poster.
pub struct InMemoryPublisherConfigRepository {
    configs: Vec<PublisherConfig>,
}

impl View for InMemoryPublisherConfigRepository {
    type V = Seq<PublisherConfig>;

    closed spec fn view(&self) -> Seq<PublisherConfig> {
        self.configs@
    }
}

impl InMemoryPublisherConfigRepository {
    #[verifier::type_invariant]
    closed spec fn wf(self) -> bool {
        configs_ok(self.configs@)
    }

    pub fn new() -> (r: Self)
        ensures
            r@ == Seq::<PublisherConfig>::empty(),
    {
        InMemoryPublisherConfigRepository { configs: Vec::new() }
    }

    fn index_of(&self, poster: PosterId) -> (r: Option<usize>)
        ensures
            match r {
                Some(i) => i < self@.len() && self@[i as int].poster_id == poster
                    && config_for(self@, poster) == Some(self@[i as int]),
                None => config_for(self@, poster) is None,
            },
    {
        proof {
            use_type_invariant(self);
        }
        let mut k: usize = 0;
        while k < self.configs.len()
            invariant
                k <= self.configs.len(),
                configs_ok(self@),
                forall|i: int| 0 <= i < k ==> self@[i].poster_id != poster,
            decreases self.configs.len() - k,
        {
            if self.configs[k].poster_id == poster {
                proof {
                    assert(self@[k as int].poster_id == poster);
                    let c = choose|i: int| 0 <= i < self@.len() && self@[i].poster_id == poster;
                    assert(c == k);
                }
                return Some(k);
            }
            k = k + 1;
        }
        None
    }

    /// Bind (or re-bind) a poster: the poster's previous binding, if any,
    /// is replaced.
    pub fn upsert(&mut self, config: PublisherConfig)
        ensures
            config_for(final(self)@, config.poster_id) == Some(config),
            forall|p: PosterId| p != config.poster_id ==> config_for(final(self)@, p) == config_for(old(self)@, p),
    {
        proof {
            use_type_invariant(&*self);
        }
        let pid = config.poster_id;
        let idx = self.index_of(pid);
        let mut configs: Vec<PublisherConfig> = Vec::new();
        std::mem::swap(&mut configs, &mut self.configs);
        let ghost before = configs@;
        let k: usize = match idx {
            Some(i) => i,
            None => configs.len(),
        };
        proof {
            if k == before.len() {
                assert forall|i: int| 0 <= i < before.len() implies before[i].poster_id != pid by {
                    if before[i].poster_id == pid {
                        assert(exists|j: int| 0 <= j < before.len() && before[j].poster_id == pid);
                    }
                }
            }
        }
        if k < configs.len() {
            configs.set(k, config);
        } else {
            configs.push(config);
        }
        proof {
            let now = configs@;
            assert(configs_ok(now)) by {
                assert forall|i: int, j: int| 0 <= i < now.len() && 0 <= j < now.len() && i != j implies now[i].poster_id != now[j].poster_id by {
                    if k < before.len() {
                        if i != k && j != k {
                            assert(now[i] == before[i] && now[j] == before[j]);
                        }
                    } else {
                        if i < before.len() && j < before.len() {
                            assert(now[i] == before[i] && now[j] == before[j]);
                        }
                    }
                }
            }
            let w = if k < before.len() { k as int } else { before.len() as int };
            assert(now[w].poster_id == pid);
            let c = choose|i: int| 0 <= i < now.len() && now[i].poster_id == pid;
            assert(c == w);
            assert forall|p: PosterId| p != pid implies config_for(now, p) == config_for(before, p) by {
                if exists|i: int| 0 <= i < before.len() && before[i].poster_id == p {
                    let b = choose|i: int| 0 <= i < before.len() && before[i].poster_id == p;
                    assert(b != w);
                    assert(now[b] == before[b]);
                    let a = choose|i: int| 0 <= i < now.len() && now[i].poster_id == p;
                    assert(a == b);
                } else {
                    if exists|i: int| 0 <= i < now.len() && now[i].poster_id == p {
                        let a = choose|i: int| 0 <= i < now.len() && now[i].poster_id == p;
                        assert(a != w);
                        assert(now[a] == before[a]);
                    }
                }
            }
        }
        self.configs = configs;
    }

    pub fn find_by_poster(&self, poster: PosterId) -> (r: Option<PublisherConfig>)
        ensures
            r == config_for(self@, poster),
    {
        match self.index_of(poster) {
            Some(i) => Some(copy_config(&self.configs[i])),
            None => None,
        }
    }

    /// Drop a poster's binding, if any.
    pub fn remove(&mut self, poster: PosterId)
        ensures
            config_for(final(self)@, poster) is None,
            forall|p: PosterId| p != poster ==> config_for(final(self)@, p) == config_for(old(self)@, p),
    {
        proof {
            use_type_invariant(&*self);
        }
        match self.index_of(poster) {
            None => {},
            Some(i) => {
                let mut configs: Vec<PublisherConfig> = Vec::new();
                std::mem::swap(&mut configs, &mut self.configs);
                let ghost before = configs@;
                configs.remove(i);
                proof {
                    let now = configs@;
                    assert forall|a: int, b: int| 0 <= a < now.len() && 0 <= b < now.len() && a != b implies now[a].poster_id != now[b].poster_id by {
                        let a2 = if a < i { a } else { a + 1 };
                        let b2 = if b < i { b } else { b + 1 };
                        assert(now[a] == before[a2] && now[b] == before[b2]);
                    }
                    if exists|j: int| 0 <= j < now.len() && now[j].poster_id == poster {
                        let j = choose|j: int| 0 <= j < now.len() && now[j].poster_id == poster;
                        let j2 = if j < i { j } else { j + 1 };
                        assert(now[j] == before[j2]);
                    }
                    assert forall|p: PosterId| p != poster implies config_for(now, p) == config_for(before, p) by {
                        if exists|j: int| 0 <= j < before.len() && before[j].poster_id == p {
                            let b = choose|j: int| 0 <= j < before.len() && before[j].poster_id == p;
                            assert(b != i);
                            let b2 = if b < i { b } else { b - 1 };
                            assert(now[b2] == before[b]);
                            let a = choose|j: int| 0 <= j < now.len() && now[j].poster_id == p;
                            let a2 = if a < i { a } else { a + 1 };
                            assert(now[a] == before[a2]);
                            assert(a2 == b);
                        } else {
                            if exists|j: int| 0 <= j < now.len() && now[j].poster_id == p {
                                let a = choose|j: int| 0 <= j < now.len() && now[j].poster_id == p;
                                let a2 = if a < i { a } else { a + 1 };
                                assert(now[a] == before[a2]);
                            }
                        }
                    }
                }
                self.configs = configs;
            },
        }
    }

    /// Every binding, in binding order.
    pub fn list_all(&self) -> (r: Vec<PublisherConfig>)
        ensures
            r@ == self@,
    {
        let mut r: Vec<PublisherConfig> = Vec::new();
        let mut k: usize = 0;
        while k < self.configs.len()
            invariant
                k <= self.configs.len(),
                r@ == self.configs@.take(k as int),
            decreases self.configs.len() - k,
        {
            r.push(copy_config(&self.configs[k]));
            assert(self.configs@.take(k + 1) =~= self.configs@.take(k as int).push(self.configs@[k as int]));
            k = k + 1;
        }
        assert(self.configs@.take(self.configs.len() as int) =~= self.configs@);
        r
    }

    /// Set announcement delivery for every binding to `chat_id`; returns how
    /// many bindings that touched.
    pub fn set_receive_announcements(&mut self, chat_id: i64, on: bool) -> (n: u64)
        ensures
            final(self)@.len() == old(self)@.len(),
            forall|i: int| 0 <= i < old(self)@.len() ==> (#[trigger] final(self)@[i]) == (if old(self)@[i].chat_id == chat_id {
                PublisherConfig { receive_announcements: on, ..old(self)@[i] }
            } else {
                old(self)@[i]
            }),
            n == count_chat(old(self)@, chat_id),
    {
        proof {
            use_type_invariant(&*self);
        }
        let mut configs: Vec<PublisherConfig> = Vec::new();
        std::mem::swap(&mut configs, &mut self.configs);
        let ghost before = configs@;
        let mut n: u64 = 0;
        let mut k: usize = 0;
        while k < configs.len()
            invariant
                k <= configs.len() == before.len(),
                configs_ok(before),
                n == count_chat(before.take(k as int), chat_id),
                n <= k,
                forall|i: int| 0 <= i < k ==> (#[trigger] configs@[i]) == (if before[i].chat_id == chat_id {
                    PublisherConfig { receive_announcements: on, ..before[i] }
                } else {
                    before[i]
                }),
                forall|i: int| k <= i < configs.len() ==> configs@[i] == before[i],
            decreases configs.len() - k,
        {
            assert(before.take(k + 1).drop_last() =~= before.take(k as int));
            if configs[k].chat_id == chat_id {
                let c = copy_config(&configs[k]);
                configs.set(k, PublisherConfig { receive_announcements: on, ..c });
                n = n + 1;
            }
            k = k + 1;
        }
        assert(before.take(before.len() as int) =~= before);
        proof {
            let now = configs@;
            assert forall|i: int, j: int| 0 <= i < now.len() && 0 <= j < now.len() && i != j implies now[i].poster_id != now[j].poster_id by {
                assert(now[i].poster_id == before[i].poster_id);
                assert(now[j].poster_id == before[j].poster_id);
            }
        }
        self.configs = configs;
        n
    }
}

/// How many bindings point at `chat`.
pub open spec fn count_chat(cs: Seq<PublisherConfig>, chat: i64) -> nat
    decreases cs.len(),
{
    if cs.len() == 0 {
        0
    } else {
        count_chat(cs.drop_last(), chat) + if cs.last().chat_id == chat { 1nat } else { 0nat }
    }
}

} // verus!
