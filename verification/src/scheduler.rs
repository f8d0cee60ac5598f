//! The minute-tick scheduler: which posters fire, what each fire does next,
//! and what a publication looks like.
//!
//! The tick loop, the sleeps and the calls into the transport run outside
//! the library; every decision they act on is made here.

use vstd::prelude::*;
use vstd::wrapping::u64_specs;
use crate::post::{InMemoryPostRepository, Post, PostId, PostRepositoryError, PostView};
use crate::poster::{fires_at, Poster, PosterId, PosterView, PublishBlock, PublishBlockError, poster_views};
use crate::publisher::{InMemoryPublicationRepository, MediaKind, Publication, PublishItem, PublishReceipt, ResolvedMedia};
use crate::text::{
    chars_of, contains_string, decimal, escape_html_spec, find, find_char, lower, lowercase,
    push_char, push_chars, push_decimal, push_escaped, push_signed_decimal, push_str,
    signed_decimal, starts_with, views, join, lemma_join_push, first_idx, lemma_first_idx, lemma_first_idx_is,
};
use crate::callback::{lemma_split_nonempty, split_on};
use crate::user::{user_by_id, InMemoryUserRepository, User, UserId};

verus! {

// ------------------------------------------------------------ spoilers ----

pub open spec fn cw_prefixed(n: Seq<char>) -> bool {
    n.len() >= 3 && (n.take(3) == seq!['c', 'w', '_'] || n.take(3) == seq!['c', 'w', ':'])
}

/// A tag demands the spoiler blur: the `cw` convention (`cw`, `cw_*`,
/// `cw:*`, ASCII case-insensitive) or a listed spoiler tag.
pub open spec fn blurs(t: Seq<char>, listed: Seq<Seq<char>>) -> bool {
    let n = lower(t);
    n == seq!['c', 'w'] || cw_prefixed(n) || listed.contains(t)
}

pub open spec fn needs_spoiler_spec(tags: Seq<Seq<char>>, listed: Seq<Seq<char>>) -> bool {
    exists|i: int| 0 <= i < tags.len() && blurs(#[trigger] tags[i], listed)
}

fn is_cw_prefixed(n: &Vec<char>) -> (b: bool)
    ensures
        b == cw_prefixed(n@),
{
    starts_with(n, &['c', 'w', '_']) || starts_with(n, &['c', 'w', ':'])
}

fn is_bare_cw(n: &Vec<char>) -> (b: bool)
    ensures
        b == (n@ == seq!['c', 'w']),
{
    if n.len() != 2 {
        return false;
    }
    let r = n[0] == 'c' && n[1] == 'w';
    proof {
        if r {
            assert(n@ =~= seq!['c', 'w']);
        }
    }
    r
}

/// Whether these tags demand the spoiler blur: any listed content-warning
/// tag, or the `cw` convention (`cw`, `cw_*`, `cw:*`).
pub fn needs_spoiler(tags: &[String], spoiler_tags: &[String]) -> (b: bool)
    ensures
        b == needs_spoiler_spec(views(tags@), views(spoiler_tags@)),
{
    let mut i: usize = 0;
    while i < tags.len()
        invariant
            i <= tags.len(),
            forall|k: int| 0 <= k < i ==> !blurs(#[trigger] views(tags@)[k], views(spoiler_tags@)),
        decreases tags.len() - i,
    {
        let name = lowercase(tags[i].as_str());
        assert(views(tags@)[i as int] == tags@[i as int]@);
        if is_bare_cw(&name) || is_cw_prefixed(&name) || contains_string(spoiler_tags, &tags[i]) {
            assert(blurs(views(tags@)[i as int], views(spoiler_tags@)));
            return true;
        }
        i = i + 1;
    }
    false
}

/// `s` with every `_` read as a space.
pub open spec fn spaced(s: Seq<char>) -> Seq<char> {
    s.map_values(|c: char| if c == '_' { ' ' } else { c })
}

/// The label a tag puts behind the blur, if it names one: the subject of a
/// `cw_*`/`cw:*` tag, or a listed spoiler tag itself (lowercased), with
/// underscores as spaces. A bare `cw`, or a prefix with no subject, names
/// nothing.
pub open spec fn label_of(t: Seq<char>, listed: Seq<Seq<char>>) -> Option<Seq<char>> {
    let n = lower(t);
    if cw_prefixed(n) {
        if n.len() > 3 { Some(spaced(n.skip(3))) } else { None }
    } else if listed.contains(t) {
        Some(spaced(n))
    } else {
        None
    }
}

/// The distinct labels of `tags`, in order of first appearance.
pub open spec fn warnings_spec(tags: Seq<Seq<char>>, listed: Seq<Seq<char>>) -> Seq<Seq<char>>
    decreases tags.len(),
{
    if tags.len() == 0 {
        seq![]
    } else {
        let prev = warnings_spec(tags.drop_last(), listed);
        match label_of(tags.last(), listed) {
            Some(l) => if prev.contains(l) { prev } else { prev.push(l) },
            None => prev,
        }
    }
}

/// The label each tag names, tag by tag.
pub open spec fn label_list(tags: Seq<Seq<char>>, listed: Seq<Seq<char>>) -> Seq<Option<Seq<char>>> {
    tags.map_values(|t: Seq<char>| label_of(t, listed))
}

/// The distinct labels of a list, in order of first appearance.
pub open spec fn distinct_labels(ls: Seq<Option<Seq<char>>>) -> Seq<Seq<char>>
    decreases ls.len(),
{
    if ls.len() == 0 {
        seq![]
    } else {
        let prev = distinct_labels(ls.drop_last());
        match ls.last() {
            Some(l) => if prev.contains(l) { prev } else { prev.push(l) },
            None => prev,
        }
    }
}

proof fn lemma_warnings_are_labels(tags: Seq<Seq<char>>, listed: Seq<Seq<char>>)
    ensures
        warnings_spec(tags, listed) == distinct_labels(label_list(tags, listed)),
    decreases tags.len(),
{
    if tags.len() > 0 {
        lemma_warnings_are_labels(tags.drop_last(), listed);
        assert(label_list(tags, listed).drop_last() =~= label_list(tags.drop_last(), listed));
        assert(label_list(tags, listed).last() == label_of(tags.last(), listed));
    }
}

/// Where `l` is named in `ls`.
pub open spec fn names_at(ls: Seq<Option<Seq<char>>>, l: Seq<char>) -> spec_fn(int) -> bool {
    |t: int| ls[t] == Some(l)
}

/// The first position naming `l` (the length when none does).
pub open spec fn first_named(ls: Seq<Option<Seq<char>>>, l: Seq<char>) -> int {
    first_idx(0, ls.len() as int, names_at(ls, l))
}

/// A label named within a prefix is first named at the same place in the
/// whole list.
proof fn lemma_first_named_prefix(ls: Seq<Option<Seq<char>>>, l: Seq<char>)
    requires
        ls.len() > 0,
        first_named(ls.drop_last(), l) < ls.len() - 1,
    ensures
        first_named(ls, l) == first_named(ls.drop_last(), l),
{
    let l0 = ls.drop_last();
    let p0 = names_at(l0, l);
    let p = names_at(ls, l);
    lemma_first_idx(0, l0.len() as int, p0);
    let a = first_named(l0, l);
    assert forall|t: int| 0 <= t < a implies !#[trigger] p(t) by {
        assert(!p0(t));
        assert(ls[t] == l0[t]);
    }
    assert(ls[a] == l0[a]);
    assert(p0(a));
    lemma_first_idx_is(0, a, ls.len() as int, p);
}

proof fn lemma_labels_complete(ls: Seq<Option<Seq<char>>>)
    ensures
        forall|t: int| 0 <= t < ls.len() && (#[trigger] ls[t]) is Some ==> distinct_labels(ls).contains(ls[t]->0),
    decreases ls.len(),
{
    if ls.len() > 0 {
        let l0 = ls.drop_last();
        lemma_labels_complete(l0);
        let prev = distinct_labels(l0);
        let w = distinct_labels(ls);
        assert forall|t: int| 0 <= t < ls.len() && (#[trigger] ls[t]) is Some implies w.contains(ls[t]->0) by {
            let l = ls[t]->0;
            if t < ls.len() - 1 {
                assert(l0[t] == ls[t]);
                let k = choose|k: int| 0 <= k < prev.len() && prev[k] == l;
                assert(w[k] == l);
            } else if prev.contains(l) {
                let k = choose|k: int| 0 <= k < prev.len() && prev[k] == l;
                assert(w[k] == l);
            } else {
                assert(w[prev.len() as int] == l);
            }
        }
    }
}

proof fn lemma_labels_first_order(ls: Seq<Option<Seq<char>>>)
    ensures
        forall|i: int| 0 <= i < distinct_labels(ls).len() ==> first_named(ls, #[trigger] distinct_labels(ls)[i]) < ls.len()
            && ls[first_named(ls, distinct_labels(ls)[i])] == Some(distinct_labels(ls)[i]),
        forall|i: int, j: int| 0 <= i < j < distinct_labels(ls).len()
            ==> first_named(ls, #[trigger] distinct_labels(ls)[i]) < first_named(ls, #[trigger] distinct_labels(ls)[j]),
    decreases ls.len(),
{
    if ls.len() > 0 {
        let n = ls.len() - 1;
        let l0 = ls.drop_last();
        lemma_labels_first_order(l0);
        lemma_labels_complete(l0);
        let prev = distinct_labels(l0);
        let w = distinct_labels(ls);
        assert forall|i: int| 0 <= i < prev.len() implies first_named(ls, #[trigger] w[i]) == first_named(l0, prev[i]) by {
            assert(w[i] == prev[i]);
            lemma_first_named_prefix(ls, prev[i]);
        }
        if w.len() > prev.len() {
            let l = w[prev.len() as int];
            assert(ls[n] == Some(l));
            assert(!prev.contains(l));
            let p = names_at(ls, l);
            assert forall|t: int| 0 <= t < n implies !#[trigger] p(t) by {
                assert(ls[t] == l0[t]);
                if l0[t] == Some(l) {
                    assert(prev.contains(l0[t]->0));
                }
            }
            assert(p(n));
            lemma_first_idx_is(0, n, ls.len() as int, p);
        }
        assert forall|i: int| 0 <= i < w.len() implies first_named(ls, #[trigger] w[i]) < ls.len()
            && ls[first_named(ls, w[i])] == Some(w[i]) by {
            if i < prev.len() {
                assert(w[i] == prev[i]);
                let x = prev[i];
                let a = first_named(l0, x);
                lemma_first_idx(0, l0.len() as int, names_at(l0, x));
                assert(a < l0.len() && l0[a] == Some(x));
                assert(first_named(ls, x) == a);
                assert(ls[a] == l0[a]);
            }
        }
        assert forall|i: int, j: int| 0 <= i < j < w.len()
            implies first_named(ls, #[trigger] w[i]) < first_named(ls, #[trigger] w[j]) by {
            assert(w[i] == prev[i]);
            if j < prev.len() {
                assert(w[j] == prev[j]);
            }
        }
    }
}

/// The content warnings are exactly the labels the tags name
/// (`label_list`), each once, in the order of the first tag that yields
/// it: every warning is first named by some tag, every tag's label is among
/// the warnings, and of two warnings the earlier is named first.
pub proof fn lemma_warnings_order(tags: Seq<Seq<char>>, listed: Seq<Seq<char>>)
    ensures
        ({
            let w = warnings_spec(tags, listed);
            let ls = label_list(tags, listed);
            &&& forall|i: int| 0 <= i < w.len() ==> first_named(ls, #[trigger] w[i]) < ls.len()
                && ls[first_named(ls, w[i])] == Some(w[i])
            &&& forall|t: int| 0 <= t < ls.len() && (#[trigger] ls[t]) is Some ==> w.contains(ls[t]->0)
            &&& forall|i: int, j: int| 0 <= i < j < w.len() ==> first_named(ls, #[trigger] w[i]) < first_named(ls, #[trigger] w[j])
        }),
{
    lemma_warnings_are_labels(tags, listed);
    let ls = label_list(tags, listed);
    lemma_labels_complete(ls);
    lemma_labels_first_order(ls);
}

/// A label holds no underscore and no ASCII capital.
pub open spec fn label_shaped(l: Seq<char>) -> bool {
    forall|k: int| 0 <= k < l.len() ==> #[trigger] l[k] != '_' && !('A' <= l[k] && l[k] <= 'Z')
}

proof fn lemma_label_shape(t: Seq<char>, listed: Seq<Seq<char>>)
    ensures
        label_of(t, listed) matches Some(l) ==> label_shaped(l),
{
    let n = lower(t);
    assert forall|k: int| 0 <= k < n.len() implies !('A' <= #[trigger] n[k] && n[k] <= 'Z') by {
        assert(n[k] == crate::text::lower_char(t[k]));
    }
    if let Some(l) = label_of(t, listed) {
        let src = if cw_prefixed(n) { n.skip(3) } else { n };
        assert(l == spaced(src));
        assert forall|k: int| 0 <= k < l.len() implies #[trigger] l[k] != '_' && !('A' <= l[k] && l[k] <= 'Z') by {
            if cw_prefixed(n) {
                assert(src[k] == n[k + 3]);
            }
            assert(l[k] == (if src[k] == '_' { ' ' } else { src[k] }));
        }
    }
}

/// The content warnings name each label once, in lower case with spaces
/// for underscores, are no more than the tags, and only appear when the
/// post goes behind the blur.
pub proof fn lemma_warnings(tags: Seq<Seq<char>>, listed: Seq<Seq<char>>)
    ensures
        warnings_spec(tags, listed).no_duplicates(),
        warnings_spec(tags, listed).len() <= tags.len(),
        warnings_spec(tags, listed).len() > 0 ==> needs_spoiler_spec(tags, listed),
        forall|i: int| 0 <= i < warnings_spec(tags, listed).len() ==> label_shaped(#[trigger] warnings_spec(tags, listed)[i]),
    decreases tags.len(),
{
    if tags.len() > 0 {
        let prev_tags = tags.drop_last();
        lemma_warnings(prev_tags, listed);
        lemma_label_shape(tags.last(), listed);
        let prev = warnings_spec(prev_tags, listed);
        if prev.len() > 0 {
            let i = choose|i: int| 0 <= i < prev_tags.len() && blurs(#[trigger] prev_tags[i], listed);
            assert(tags[i] == prev_tags[i]);
        }
        match label_of(tags.last(), listed) {
            Some(l) => {
                assert(blurs(tags[tags.len() - 1], listed));
                if !prev.contains(l) {
                    assert forall|a: int, b: int| 0 <= a < b < prev.push(l).len() implies prev.push(l)[a] != prev.push(l)[b] by {
                        if b == prev.len() {
                            assert(prev[a] == prev.push(l)[a]);
                        }
                    }
                }
            },
            None => {},
        }
    }
}

/// `v[from..]` with underscores as spaces.
fn spaced_from(v: &Vec<char>, from: usize) -> (s: String)
    requires
        from <= v.len(),
    ensures
        s@ == spaced(v@.skip(from as int)),
{
    let mut s = String::new();
    let mut k = from;
    while k < v.len()
        invariant
            from <= k <= v.len(),
            s@ == spaced(v@.subrange(from as int, k as int)),
        decreases v.len() - k,
    {
        let c = v[k];
        push_char(&mut s, if c == '_' { ' ' } else { c });
        assert(spaced(v@.subrange(from as int, k + 1)) =~= spaced(v@.subrange(from as int, k as int)).push(if c == '_' { ' ' } else { c }));
        k = k + 1;
    }
    assert(v@.subrange(from as int, v.len() as int) =~= v@.skip(from as int));
    s
}

/// The human labels behind the blur, for the caption: `cw_*`/`cw:*` keep
/// only the subject, listed spoiler tags appear as themselves; underscores
/// read as spaces; each label once.
pub fn content_warnings(tags: &[String], spoiler_tags: &[String]) -> (labels: Vec<String>)
    ensures
        views(labels@) == warnings_spec(views(tags@), views(spoiler_tags@)),
{
    let ghost listed = views(spoiler_tags@);
    let mut labels: Vec<String> = Vec::new();
    let mut i: usize = 0;
    while i < tags.len()
        invariant
            i <= tags.len(),
            listed == views(spoiler_tags@),
            views(labels@) == warnings_spec(views(tags@).take(i as int), listed),
        decreases tags.len() - i,
    {
        let ghost t = views(tags@)[i as int];
        assert(views(tags@).take(i + 1).drop_last() =~= views(tags@).take(i as int));
        assert(views(tags@).take(i + 1).last() == t);
        assert(t == tags@[i as int]@);
        let name = lowercase(tags[i].as_str());
        let label: Option<String> = if is_cw_prefixed(&name) {
            if name.len() > 3 {
                Some(spaced_from(&name, 3))
            } else {
                None
            }
        } else if contains_string(spoiler_tags, &tags[i]) {
            Some(spaced_from(&name, 0))
        } else {
            None
        };
        proof {
            assert(name@.skip(0) =~= name@);
            if label is Some {
                assert(label_of(t, listed) == Some(label->0@));
            } else {
                assert(label_of(t, listed) is None);
            }
        }
        match label {
            Some(l) => {
                if !contains_string(labels.as_slice(), &l) {
                    let ghost before = labels@;
                    labels.push(l);
                    assert(views(labels@) =~= views(before).push(l@));
                }
            },
            None => {},
        }
        i = i + 1;
    }
    assert(views(tags@).take(tags.len() as int) =~= views(tags@));
    labels
}

// ---------------------------------------------------------------- code ----

pub const FNV_OFFSET: u64 = 0xcbf29ce484222325;
pub const FNV_PRIME: u64 = 0x100000001b3;

/// FNV-1a over `bytes`, starting from `h`.
pub open spec fn fnv(h: u64, bytes: Seq<u8>) -> u64
    decreases bytes.len(),
{
    if bytes.len() == 0 {
        h
    } else {
        u64_specs::wrapping_mul(fnv(h, bytes.drop_last()) ^ (bytes.last() as u64), FNV_PRIME)
    }
}

/// A base-36 digit: `0-9` then `A-Z`.
pub open spec fn code_char(d: nat) -> char {
    if d < 10 { ((d + 48) as u32) as char } else { ((d - 10 + 65) as u32) as char }
}

/// The `n` least significant base-36 digits of `h`, least significant first.
pub open spec fn base36(h: nat, n: nat) -> Seq<char>
    decreases n,
{
    if n == 0 {
        seq![]
    } else {
        seq![code_char(h % 36)] + base36(h / 36, (n - 1) as nat)
    }
}

/// The publication code of a post's source for one poster: FNV-1a over the
/// UTF-8 of the source URL followed by the poster id in decimal, written as
/// 8 base-36 digits.
pub open spec fn publish_code_spec(source: Seq<char>, poster: PosterId) -> Seq<char> {
    base36(fnv(FNV_OFFSET, vstd::utf8::encode_utf8(source + decimal(poster.0 as nat))) as nat, 8)
}

/// Fixed-size publication code shown at the top of every published caption:
/// 8 base-36 chars derived (FNV-1a) from the source URL and the consuming
/// Poster's id. Deterministic, so the same (post, channel) pair always shows
/// the same code.
pub fn publish_code(post: &Post, poster_id: PosterId) -> (code: String)
    ensures
        code@ == publish_code_spec(post.source@, poster_id),
        code@.len() == 8,
{
    let mut key = post.source.clone();
    push_decimal(&mut key, poster_id.0);
    let bytes = key.as_str().as_bytes();
    let mut hash: u64 = FNV_OFFSET;
    let mut i: usize = 0;
    while i < bytes.len()
        invariant
            i <= bytes@.len(),
            hash == fnv(FNV_OFFSET, bytes@.take(i as int)),
        decreases bytes.len() - i,
    {
        assert(bytes@.take(i + 1).drop_last() =~= bytes@.take(i as int));
        hash = (hash ^ (bytes[i] as u64)).wrapping_mul(FNV_PRIME);
        i = i + 1;
    }
    assert(bytes@.take(bytes@.len() as int) =~= bytes@);
    let ghost h0 = hash;
    let mut code = String::new();
    let mut k: usize = 0;
    while k < 8
        invariant
            k <= 8,
            code@.len() == k,
            code@ + base36(hash as nat, (8 - k) as nat) == base36(h0 as nat, 8),
        decreases 8 - k,
    {
        let d = (hash % 36) as u8;
        let c: char = if d < 10 { (d + 48) as char } else { (d - 10 + 65) as char };
        assert(c == code_char((hash % 36) as nat));
        let ghost before = code@;
        push_char(&mut code, c);
        assert(base36(hash as nat, (8 - k) as nat) == seq![c] + base36((hash / 36) as nat, (8 - k - 1) as nat));
        assert(before + base36(hash as nat, (8 - k) as nat) =~= code@ + base36((hash / 36) as nat, (8 - k - 1) as nat));
        hash = hash / 36;
        k = k + 1;
    }
    assert(base36(hash as nat, 0) =~= seq![]);
    assert(code@ =~= base36(h0 as nat, 8));
    code
}

// ------------------------------------------------------------- caption ----

pub open spec fn is_moving(kind: MediaKind) -> bool {
    kind == MediaKind::Video || kind == MediaKind::Animation
}

/// `<code>#CODE</code>`, tagged ` #video` for videos and animations.
pub open spec fn header_spec(code: Seq<char>, kind: MediaKind) -> Seq<char> {
    "<code>#"@ + code + "</code>"@ + (if is_moving(kind) { " #video"@ } else { Seq::<char>::empty() })
}

pub open spec fn escaped_all(xs: Seq<Seq<char>>) -> Seq<Seq<char>> {
    xs.map_values(|x: Seq<char>| escape_html_spec(x))
}

/// How a submitter is credited: their cached display name, else their
/// Telegram id; an unknown user by their internal id.
pub open spec fn submitter_name(users: Seq<User>, uid: UserId) -> Seq<char> {
    match user_by_id(users, uid) {
        Some(u) => match u.display_name {
            Some(n) => n@,
            None => "user "@ + signed_decimal(u.telegram_id.0 as int),
        },
        None => "user "@ + decimal(uid.0 as nat),
    }
}

pub open spec fn tme_prefix() -> Seq<char> {
    seq!['h', 't', 't', 'p', 's', ':', '/', '/', 't', '.', 'm', 'e', '/']
}

/// The channel of a `https://t.me/<channel>/...` source, if it is one.
pub open spec fn telegram_channel(src: Seq<char>) -> Option<Seq<char>> {
    if src.len() >= 13 && src.take(13) == tme_prefix() {
        let j = find_char(src, 13, src.len() as int, '/');
        if j > 13 { Some(src.subrange(13, j)) } else { None }
    } else {
        None
    }
}

/// The Source, More-like-this and Report links.
pub open spec fn links_line(source: Seq<char>, bot: Seq<char>, id: PostId) -> Seq<char> {
    "<a href=\""@ + source + "\">Source</a> · <a href=\"https://t.me/"@ + bot + "?start=more_"@
        + decimal(id.0 as nat) + "\">More like this</a> · <a href=\"https://t.me/"@ + bot
        + "?start=report_"@ + decimal(id.0 as nat) + "\">Report</a>"@
}

/// The caption's lines: header, content warnings, artists, submitter,
/// forward credit (each only when there is something to say), links.
pub open spec fn caption_lines(
    p: PostView,
    poster: PosterId,
    users: Seq<User>,
    bot: Seq<char>,
    kind: MediaKind,
    warnings: Seq<Seq<char>>,
) -> Seq<Seq<char>> {
    seq![header_spec(publish_code_spec(p.source, poster), kind)]
        + (if warnings.len() > 0 {
            seq!["⚠️ CW: "@ + join(escaped_all(warnings), ", "@)]
        } else {
            Seq::<Seq<char>>::empty()
        })
        + (if p.artists.len() > 0 {
            seq!["By "@ + join(escaped_all(p.artists), ", "@)]
        } else {
            Seq::<Seq<char>>::empty()
        })
        + (match p.submitted_by {
            Some(uid) => seq!["Submitted by "@ + escape_html_spec(submitter_name(users, uid))],
            None => Seq::<Seq<char>>::empty(),
        })
        + (match telegram_channel(p.source) {
            Some(c) => seq!["Forwarded from channel: @"@ + escape_html_spec(c)],
            None => Seq::<Seq<char>>::empty(),
        })
        + seq![links_line(p.source, bot, p.id)]
}

pub open spec fn caption_spec(
    p: PostView,
    poster: PosterId,
    users: Seq<User>,
    bot: Seq<char>,
    kind: MediaKind,
    warnings: Seq<Seq<char>>,
) -> Seq<char> {
    join(caption_lines(p, poster, users, bot, kind, warnings), seq!['\n'])
}

/// The items HTML-escaped and joined by `sep`.
fn join_escaped(items: &Vec<String>, sep: &str) -> (s: String)
    ensures
        s@ == join(escaped_all(views(items@)), sep@),
{
    let ghost parts = escaped_all(views(items@));
    let mut s = String::new();
    let mut k: usize = 0;
    while k < items.len()
        invariant
            k <= items.len(),
            parts == escaped_all(views(items@)),
            s@ == join(parts.take(k as int), sep@),
        decreases items.len() - k,
    {
        proof {
            lemma_join_push(parts.take(k as int), parts[k as int], sep@);
            assert(parts.take(k + 1) =~= parts.take(k as int).push(parts[k as int]));
        }
        if k > 0 {
            push_str(&mut s, sep);
        }
        push_escaped(&mut s, items[k].as_str());
        k = k + 1;
    }
    assert(parts.take(items.len() as int) =~= parts);
    s
}

/// The lines joined by newlines.
fn join_lines(lines: &Vec<String>) -> (s: String)
    ensures
        s@ == join(views(lines@), seq!['\n']),
{
    let ghost parts = views(lines@);
    let mut s = String::new();
    let mut k: usize = 0;
    while k < lines.len()
        invariant
            k <= lines.len(),
            parts == views(lines@),
            s@ == join(parts.take(k as int), seq!['\n']),
        decreases lines.len() - k,
    {
        proof {
            lemma_join_push(parts.take(k as int), parts[k as int], seq!['\n']);
            assert(parts.take(k + 1) =~= parts.take(k as int).push(parts[k as int]));
        }
        if k > 0 {
            push_char(&mut s, '\n');
            assert(seq!['\n'] == seq!['\n']);
        }
        let ghost before = s@;
        push_str(&mut s, lines[k].as_str());
        proof {
            if k > 0 {
                assert(s@ =~= join(parts.take(k as int), seq!['\n']) + seq!['\n'] + parts[k as int]);
            }
        }
        k = k + 1;
    }
    assert(parts.take(lines.len() as int) =~= parts);
    s
}

/// The channel of a `https://t.me/<channel>/...` source.
pub fn telegram_channel_of(source: &str) -> (r: Option<String>)
    ensures
        match r {
            Some(c) => telegram_channel(source@) == Some(c@),
            None => telegram_channel(source@) is None,
        },
{
    let v = chars_of(source);
    if !starts_with(&v, &['h', 't', 't', 'p', 's', ':', '/', '/', 't', '.', 'm', 'e', '/']) {
        return None;
    }
    assert(v@.take(13) =~= tme_prefix());
    let j = find(&v, 13, v.len(), '/');
    if j > 13 {
        Some(crate::text::string_of(&v, 13, j))
    } else {
        None
    }
}

/// The credited name of submitter `uid`.
pub fn submitter_label(users: &InMemoryUserRepository, uid: UserId) -> (s: String)
    ensures
        s@ == submitter_name(users@, uid),
{
    match users.find_by_id(uid) {
        Some(user) => match user.display_name {
            Some(n) => n,
            None => {
                let mut s = String::new();
                push_str(&mut s, "user ");
                push_signed_decimal(&mut s, user.telegram_id.0);
                s
            },
        },
        None => {
            let mut s = String::new();
            push_str(&mut s, "user ");
            push_decimal(&mut s, uid.0);
            s
        },
    }
}

/// Build the HTML caption for a publication:
///
/// ```text
/// <code>#CODE</code> [#video]
/// ⚠️ CW: labels                        (when there are content warnings)
/// By artists                           (when artists are known)
/// Submitted by <name>                  (user submissions only)
/// Forwarded from channel: @chan        (channel forwards only)
/// Source · More like this · Report     (hyperlinks)
/// ```
pub fn build_caption(
    post: &Post,
    poster_id: PosterId,
    users: &InMemoryUserRepository,
    bot_username: &str,
    media: &ResolvedMedia,
    content_warnings: &Vec<String>,
) -> (caption: String)
    ensures
        caption@ == caption_spec(post@, poster_id, users@, bot_username@, media.kind_spec(), views(content_warnings@)),
{
    let ghost p = post@;
    let mut lines: Vec<String> = Vec::new();

    let mut header = String::new();
    push_str(&mut header, "<code>#");
    let code = publish_code(post, poster_id);
    push_str(&mut header, code.as_str());
    push_str(&mut header, "</code>");
    let kind = media.kind();
    if kind == MediaKind::Video || kind == MediaKind::Animation {
        push_str(&mut header, " #video");
    } else {
        assert(header@ =~= header@ + Seq::<char>::empty());
    }
    lines.push(header);
    let ghost l1 = views(lines@);
    assert(l1 =~= seq![header_spec(publish_code_spec(p.source, poster_id), media.kind_spec())]);

    if content_warnings.len() > 0 {
        let mut line = String::new();
        push_str(&mut line, "⚠️ CW: ");
        let labels = join_escaped(content_warnings, ", ");
        push_str(&mut line, labels.as_str());
        lines.push(line);
    }
    let ghost l2 = views(lines@);
    assert(l2 =~= l1 + (if views(content_warnings@).len() > 0 {
        seq!["⚠️ CW: "@ + join(escaped_all(views(content_warnings@)), ", "@)]
    } else {
        Seq::<Seq<char>>::empty()
    }));

    if post.artists.len() > 0 {
        let mut line = String::new();
        push_str(&mut line, "By ");
        let names = join_escaped(&post.artists, ", ");
        push_str(&mut line, names.as_str());
        lines.push(line);
    }
    let ghost l3 = views(lines@);
    assert(l3 =~= l2 + (if p.artists.len() > 0 {
        seq!["By "@ + join(escaped_all(p.artists), ", "@)]
    } else {
        Seq::<Seq<char>>::empty()
    }));

    match post.submitted_by {
        Some(uid) => {
            let name = submitter_label(users, uid);
            let mut line = String::new();
            push_str(&mut line, "Submitted by ");
            push_escaped(&mut line, name.as_str());
            lines.push(line);
        },
        None => {},
    }
    let ghost l4 = views(lines@);
    assert(l4 =~= l3 + (match p.submitted_by {
        Some(uid) => seq!["Submitted by "@ + escape_html_spec(submitter_name(users@, uid))],
        None => Seq::<Seq<char>>::empty(),
    }));

    match telegram_channel_of(post.source.as_str()) {
        Some(channel) => {
            let mut line = String::new();
            push_str(&mut line, "Forwarded from channel: @");
            push_escaped(&mut line, channel.as_str());
            lines.push(line);
        },
        None => {},
    }
    let ghost l5 = views(lines@);
    assert(l5 =~= l4 + (match telegram_channel(p.source) {
        Some(c) => seq!["Forwarded from channel: @"@ + escape_html_spec(c)],
        None => Seq::<Seq<char>>::empty(),
    }));

    let mut links = String::new();
    push_str(&mut links, "<a href=\"");
    push_str(&mut links, post.source.as_str());
    push_str(&mut links, "\">Source</a> · <a href=\"https://t.me/");
    push_str(&mut links, bot_username);
    push_str(&mut links, "?start=more_");
    push_decimal(&mut links, post.id.0);
    push_str(&mut links, "\">More like this</a> · <a href=\"https://t.me/");
    push_str(&mut links, bot_username);
    push_str(&mut links, "?start=report_");
    push_decimal(&mut links, post.id.0);
    push_str(&mut links, "\">Report</a>");
    assert(links@ =~= links_line(p.source, bot_username@, p.id));
    lines.push(links);
    assert(views(lines@) =~= l5.push(links_line(p.source, bot_username@, p.id)));
    assert(views(lines@) =~= caption_lines(p, poster_id, users@, bot_username@, media.kind_spec(), views(content_warnings@)));
    join_lines(&lines)
}

// ---------------------------------------------------------------- tick ----

#[derive(Debug)]
pub enum TickError {
    /// The tick's minute is not a minute of the hour.
    Block(PublishBlockError),
    /// The poster listing failed.
    Posters(String),
}

/// The posters of `ps` whose cadence fires at `minute`, in order.
pub open spec fn due_spec(minute: int, ps: Seq<PosterView>) -> Seq<PosterView>
    decreases ps.len(),
{
    if ps.len() == 0 {
        seq![]
    } else {
        let prev = due_spec(minute, ps.drop_last());
        if fires_at(minute, ps.last().interval as int) { prev.push(ps.last()) } else { prev }
    }
}

/// The posters due at a minute are exactly those whose cadence divides
/// it, in order: a poster is among them when the minute is a multiple of
/// its cadence, and every one of them has such a cadence.
pub proof fn lemma_due_posters(minute: int, ps: Seq<PosterView>)
    ensures
        forall|j: int| 0 <= j < ps.len() && minute % (#[trigger] ps[j]).interval as int == 0
            ==> due_spec(minute, ps).contains(ps[j]),
        forall|k: int| 0 <= k < due_spec(minute, ps).len()
            ==> minute % (#[trigger] due_spec(minute, ps)[k]).interval as int == 0 && ps.contains(due_spec(minute, ps)[k]),
    decreases ps.len(),
{
    if ps.len() > 0 {
        let p0 = ps.drop_last();
        lemma_due_posters(minute, p0);
        let prev = due_spec(minute, p0);
        let now = due_spec(minute, ps);
        assert forall|j: int| 0 <= j < ps.len() && minute % (#[trigger] ps[j]).interval as int == 0
            implies now.contains(ps[j]) by {
            if j < p0.len() {
                assert(ps[j] == p0[j]);
                let k = choose|k: int| 0 <= k < prev.len() && prev[k] == p0[j];
                assert(now[k] == prev[k]);
            } else {
                assert(ps[j] == ps.last());
                assert(now[now.len() - 1] == ps.last());
            }
        }
        assert forall|k: int| 0 <= k < now.len()
            implies minute % (#[trigger] now[k]).interval as int == 0 && ps.contains(now[k]) by {
            if k < prev.len() {
                assert(now[k] == prev[k]);
                let j = choose|j: int| 0 <= j < p0.len() && p0[j] == prev[k];
                assert(ps[j] == p0[j]);
            } else {
                assert(now[k] == ps.last());
                assert(ps[ps.len() - 1] == ps.last());
            }
        }
    }
}

/// The posters that fire this tick: those whose cadence divides the
/// current minute of the hour. Refused for a minute outside `0..60`.
pub fn posters_due(minute: u8, posters: &Vec<Poster>) -> (r: Result<Vec<Poster>, TickError>)
    ensures
        match r {
            Ok(due) => minute < 60 && poster_views(due@) == due_spec(minute as int, poster_views(posters@)),
            Err(e) => minute >= 60 && e == TickError::Block(PublishBlockError(minute)),
        },
{
    let block = match PublishBlock::try_from_minute(minute) {
        Ok(b) => b,
        Err(e) => return Err(TickError::Block(e)),
    };
    let ghost ps = poster_views(posters@);
    let mut due: Vec<Poster> = Vec::new();
    let mut k: usize = 0;
    while k < posters.len()
        invariant
            k <= posters.len(),
            ps == poster_views(posters@),
            block@ == minute,
            poster_views(due@) == due_spec(minute as int, ps.take(k as int)),
        decreases posters.len() - k,
    {
        assert(ps.take(k + 1).drop_last() =~= ps.take(k as int));
        assert(ps.take(k + 1).last() == posters@[k as int]@);
        if block.fires_for(&posters[k].time_interval) {
            let ghost before = due@;
            due.push(crate::poster::copy_poster(&posters[k]));
            assert(poster_views(due@) =~= poster_views(before).push(posters@[k as int]@));
        }
        k = k + 1;
    }
    assert(ps.take(posters.len() as int) =~= ps);
    Ok(due)
}

// ---------------------------------------------------------------- fire ----

/// How many dead entries one fire shelves before giving up until the next
/// tick.
pub const MAX_DEAD_SKIPS: u8 = 5;

/// What resolving an entry's media came to.
#[derive(Debug, Clone, Copy, PartialEq, Eq, Structural)]
pub enum ResolveOutcome {
    Resolved,
    /// The upstream is gone for good.
    Gone,
    /// A transient failure.
    Failed,
}

/// What a fire makes of an entry's media resolution: a gone upstream
/// shelves the entry, a source no resolver handles goes out as a link
/// embed of the source, any other failure keeps the cursor for a retry.
pub fn fire_resolution(
    source: &str,
    r: Result<ResolvedMedia, crate::e621::MediaResolveError>,
) -> (out: (ResolveOutcome, Option<ResolvedMedia>))
    ensures
        match r {
            Ok(m) => out == (ResolveOutcome::Resolved, Some(m)),
            Err(crate::e621::MediaResolveError::Unsupported(_)) => out.0 == ResolveOutcome::Resolved
                && (out.1 matches Some(ResolvedMedia::Link(u)) && u@ == source@),
            Err(crate::e621::MediaResolveError::NotFound(_)) => out == (ResolveOutcome::Gone, None::<ResolvedMedia>),
            Err(_) => out == (ResolveOutcome::Failed, None::<ResolvedMedia>),
        },
{
    match r {
        Ok(m) => (ResolveOutcome::Resolved, Some(m)),
        Err(crate::e621::MediaResolveError::Unsupported(_)) => {
            (ResolveOutcome::Resolved, Some(ResolvedMedia::Link(source.to_owned())))
        },
        Err(crate::e621::MediaResolveError::NotFound(_)) => (ResolveOutcome::Gone, None),
        Err(_) => (ResolveOutcome::Failed, None),
    }
}

/// What the fire pipeline learned from its last action.
#[derive(Debug, Clone, Copy, PartialEq, Eq, Structural)]
pub enum FireEvent {
    /// A scan came back: an entry to publish (or none) and where the cursor
    /// goes once it is handled.
    Picked { found: bool, advance_to: u64 },
    /// The scan failed.
    ScanFailed,
    Resolved(ResolveOutcome),
    /// The MediaGone write for a dead entry succeeded (or not).
    Shelved(bool),
    /// The send succeeded (or not).
    Published(bool),
}

/// The fire pipeline's next move.
#[derive(Debug, Clone, Copy, PartialEq, Eq, Structural)]
pub enum FireAction {
    /// Scan the feed from the cursor.
    Scan,
    /// Resolve the picked entry's media.
    Resolve,
    /// Mark the picked entry MediaGone, then scan again.
    Shelve,
    /// Send the picked entry.
    Publish,
    /// Write this cursor and stop.
    SetCursor(u64),
    /// Stop; the cursor stays where it is.
    Stop,
}

/// One fire's progress.
#[derive(Debug, Clone, Copy, PartialEq, Eq, Structural)]
pub struct FireState {
    /// The poster's cursor when the fire started.
    pub cursor: u64,
    /// Dead entries shelved so far in this fire.
    pub dead_skips: u8,
    /// Where the cursor goes once the picked entry is published.
    pub advance_to: u64,
}

/// A fire starts by scanning from the poster's cursor.
pub fn fire_start(cursor: u64) -> (r: (FireState, FireAction))
    ensures
        r == (FireState { cursor, dead_skips: 0, advance_to: cursor }, FireAction::Scan),
{
    (FireState { cursor, dead_skips: 0, advance_to: cursor }, FireAction::Scan)
}

/// The fire pipeline's transition: a scan with no entry moves the cursor
/// to the scanned window's end (or stays quiet at the feed end); a found
/// entry is resolved, then published; a dead entry is shelved and the scan
/// repeats, at most `MAX_DEAD_SKIPS` times; after a successful publish the
/// cursor moves to the entry. Every failure stops with the cursor kept.
pub open spec fn fire_step_spec(s: FireState, e: FireEvent) -> (FireState, FireAction) {
    match e {
        FireEvent::Picked { found, advance_to } => if found {
            (FireState { advance_to, ..s }, FireAction::Resolve)
        } else if advance_to != s.cursor {
            (s, FireAction::SetCursor(advance_to))
        } else {
            (s, FireAction::Stop)
        },
        FireEvent::ScanFailed => (s, FireAction::Stop),
        FireEvent::Resolved(ResolveOutcome::Resolved) => (s, FireAction::Publish),
        FireEvent::Resolved(ResolveOutcome::Gone) => if s.dead_skips < MAX_DEAD_SKIPS {
            (FireState { dead_skips: (s.dead_skips + 1) as u8, ..s }, FireAction::Shelve)
        } else {
            (s, FireAction::Stop)
        },
        FireEvent::Resolved(ResolveOutcome::Failed) => (s, FireAction::Stop),
        FireEvent::Shelved(ok) => (s, if ok { FireAction::Scan } else { FireAction::Stop }),
        FireEvent::Published(ok) => (s, if ok { FireAction::SetCursor(s.advance_to) } else { FireAction::Stop }),
    }
}

pub fn fire_step(s: FireState, e: FireEvent) -> (r: (FireState, FireAction))
    requires
        s.dead_skips <= MAX_DEAD_SKIPS,
    ensures
        r == fire_step_spec(s, e),
        r.0.dead_skips <= MAX_DEAD_SKIPS,
{
    match e {
        FireEvent::Picked { found, advance_to } => if found {
            (FireState { advance_to, ..s }, FireAction::Resolve)
        } else if advance_to != s.cursor {
            (s, FireAction::SetCursor(advance_to))
        } else {
            (s, FireAction::Stop)
        },
        FireEvent::ScanFailed => (s, FireAction::Stop),
        FireEvent::Resolved(ResolveOutcome::Resolved) => (s, FireAction::Publish),
        FireEvent::Resolved(ResolveOutcome::Gone) => if s.dead_skips < MAX_DEAD_SKIPS {
            (FireState { dead_skips: s.dead_skips + 1, ..s }, FireAction::Shelve)
        } else {
            (s, FireAction::Stop)
        },
        FireEvent::Resolved(ResolveOutcome::Failed) => (s, FireAction::Stop),
        FireEvent::Shelved(ok) => (s, if ok { FireAction::Scan } else { FireAction::Stop }),
        FireEvent::Published(ok) => (s, if ok { FireAction::SetCursor(s.advance_to) } else { FireAction::Stop }),
    }
}

/// The cursor only moves on a scan that found nothing (to the scanned
/// window's end) or after a successful publish (to the published entry);
/// a fire never shelves more than `MAX_DEAD_SKIPS` entries; the cursor a
/// fire started from never changes along the way.
pub proof fn lemma_fire_cursor_moves(s: FireState, e: FireEvent)
    requires
        s.dead_skips <= MAX_DEAD_SKIPS,
    ensures
        ({
            let (t, a) = fire_step_spec(s, e);
            &&& t.cursor == s.cursor
            &&& t.dead_skips <= MAX_DEAD_SKIPS
            &&& a is Shelve ==> t.dead_skips == s.dead_skips + 1
            &&& forall|c: u64| a == FireAction::SetCursor(c) ==> (
                (e == FireEvent::Published(true) && c == s.advance_to)
                || (e == FireEvent::Picked { found: false, advance_to: c } && c != s.cursor))
        }),
{
}

// ------------------------------------------------------------- publish ----

/// The blur and the caption's warnings for a post's tags; when the spoiler
/// list could not be read the post goes out unblurred and unlabelled.
pub fn spoiler_policy(tags: &[String], spoiler_tags: Option<&Vec<String>>) -> (r: (bool, Vec<String>))
    ensures
        match spoiler_tags {
            Some(list) => r.0 == needs_spoiler_spec(views(tags@), views(list@))
                && views(r.1@) == warnings_spec(views(tags@), views(list@)),
            None => !r.0 && r.1@.len() == 0,
        },
{
    match spoiler_tags {
        Some(list) => (needs_spoiler(tags, list.as_slice()), content_warnings(tags, list.as_slice())),
        None => (false, Vec::new()),
    }
}

/// The item a publish sends: the post's media behind its caption.
pub fn publish_item(post: &Post, media: ResolvedMedia, caption: String, spoiler: bool) -> (item: PublishItem)
    ensures
        item.post_id == post.id,
        item.media == media,
        item.caption == Some(caption),
        item.spoiler == spoiler,
{
    PublishItem { post_id: post.id, media, caption: Some(caption), spoiler }
}

/// The delivery record of a successful publish at `now`.
pub fn publication_of(post_id: PostId, receipt: PublishReceipt, now: i64) -> (p: Publication)
    ensures
        p == (Publication {
            post_id,
            chat_id: receipt.chat_id,
            message_id: receipt.message_id,
            published_at: now,
        }),
{
    Publication { post_id, chat_id: receipt.chat_id, message_id: receipt.message_id, published_at: now }
}

/// The bookkeeping after a delivery went out: the publication is recorded,
/// then the post is marked posted at `now`. A post the store does not hold
/// is reported, the publication still recorded: the message is already out.
pub fn record_delivery(
    post_id: PostId,
    receipt: PublishReceipt,
    now: i64,
    publications: &mut InMemoryPublicationRepository,
    posts: &mut InMemoryPostRepository,
) -> (r: Result<(), PostRepositoryError>)
    ensures
        final(publications)@ == old(publications)@.push(Publication {
            post_id,
            chat_id: receipt.chat_id,
            message_id: receipt.message_id,
            published_at: now,
        }),
        match r {
            Ok(_) => post_id.0 < old(posts)@.len() && final(posts)@ == old(posts)@.update(
                post_id.0 as int,
                PostView { last_posted: Some(now), ..old(posts)@[post_id.0 as int] },
            ),
            Err(e) => e == PostRepositoryError::NotFound(post_id) && post_id.0 >= old(posts)@.len()
                && final(posts)@ == old(posts)@,
        },
{
    publications.record(publication_of(post_id, receipt, now));
    posts.mark_posted(post_id, now)
}


// ------------------------------------------------------- caption lines ----

/// `s` holds no line break.
pub open spec fn one_line(s: Seq<char>) -> bool {
    forall|k: int| 0 <= k < s.len() ==> #[trigger] s[k] != '\n'
}

proof fn lemma_one_line_add(a: Seq<char>, b: Seq<char>)
    requires
        one_line(a),
        one_line(b),
    ensures
        one_line(a + b),
{
    assert forall|k: int| 0 <= k < (a + b).len() implies #[trigger] (a + b)[k] != '\n' by {
        if k < a.len() {
            assert((a + b)[k] == a[k]);
        } else {
            assert((a + b)[k] == b[k - a.len()]);
        }
    }
}

proof fn lemma_decimal_one_line(n: nat)
    ensures
        one_line(decimal(n)),
    decreases n,
{
    if n >= 10 {
        lemma_decimal_one_line(n / 10);
        assert(one_line(seq![crate::text::digit_char(n % 10)]));
        lemma_one_line_add(decimal(n / 10), seq![crate::text::digit_char(n % 10)]);
        assert(decimal(n / 10) + seq![crate::text::digit_char(n % 10)] =~= decimal(n));
    }
}

proof fn lemma_base36_one_line(h: nat, n: nat)
    ensures
        one_line(base36(h, n)),
    decreases n,
{
    if n > 0 {
        lemma_base36_one_line(h / 36, (n - 1) as nat);
        assert(one_line(seq![code_char(h % 36)]));
        lemma_one_line_add(seq![code_char(h % 36)], base36(h / 36, (n - 1) as nat));
    }
}

proof fn lemma_escape_one_line(s: Seq<char>)
    requires
        one_line(s),
    ensures
        one_line(escape_html_spec(s)),
    decreases s.len(),
{
    if s.len() > 0 {
        let d = s.drop_last();
        assert(one_line(d)) by {
            assert forall|k: int| 0 <= k < d.len() implies #[trigger] d[k] != '\n' by {
                assert(d[k] == s[k]);
            }
        }
        lemma_escape_one_line(d);
        assert(s.last() == s[s.len() - 1]);
        assert(one_line(crate::text::escape_char(s.last())));
        lemma_one_line_add(escape_html_spec(d), crate::text::escape_char(s.last()));
    }
}

/// Items escaped and joined by `, ` stay on one line.
proof fn lemma_joined_one_line(xs: Seq<Seq<char>>)
    requires
        forall|q: int| 0 <= q < xs.len() ==> one_line(#[trigger] xs[q]),
    ensures
        one_line(join(escaped_all(xs), ", "@)),
{
    reveal_strlit(", ");
    let parts = escaped_all(xs);
    let p = |c: char| c == '\n';
    assert forall|i: int, k: int| 0 <= i < parts.len() && 0 <= k < parts[i].len() implies !p(#[trigger] parts[i][k]) by {
        lemma_escape_one_line(xs[i]);
    }
    assert forall|k: int| 0 <= k < ", "@.len() implies !p(#[trigger] ", "@[k]) by {}
    crate::rule_text::lemma_join_chars(parts, ", "@, p);
}

/// Splitting at `c` text that ends in a piece without `c` extends the last piece.
proof fn lemma_split_plain_tail(x: Seq<char>, y: Seq<char>, c: char)
    requires
        forall|k: int| 0 <= k < y.len() ==> #[trigger] y[k] != c,
    ensures
        split_on(x + y, c) == split_on(x, c).update(split_on(x, c).len() - 1, split_on(x, c).last() + y),
    decreases y.len(),
{
    lemma_split_nonempty(x, c);
    if y.len() == 0 {
        assert(x + y =~= x);
        assert(split_on(x, c).last() + y =~= split_on(x, c).last());
        assert(split_on(x, c).update(split_on(x, c).len() - 1, split_on(x, c).last()) =~= split_on(x, c));
    } else {
        let y0 = y.drop_last();
        assert forall|k: int| 0 <= k < y0.len() implies #[trigger] y0[k] != c by {
            assert(y0[k] == y[k]);
        }
        lemma_split_plain_tail(x, y0, c);
        assert((x + y).drop_last() =~= x + y0);
        assert((x + y).last() == y.last());
        let prev = split_on(x + y0, c);
        let sx = split_on(x, c);
        let li = sx.len() - 1;
        assert(y[y.len() - 1] != c);
        assert(prev.len() == sx.len());
        assert(prev.last() == sx.last() + y0);
        assert(split_on(x + y, c) == prev.update(prev.len() - 1, prev.last().push(y.last())));
        assert(sx.last() + y0 + seq![y.last()] =~= sx.last() + y);
        assert(prev.last().push(y.last()) =~= sx.last() + y);
        assert(prev.update(li, sx.last() + y) =~= sx.update(li, sx.last() + y));
    }
}

/// Lines without a break, joined by breaks, split back into the same lines.
proof fn lemma_split_joined_lines(parts: Seq<Seq<char>>)
    requires
        parts.len() >= 1,
        forall|q: int| 0 <= q < parts.len() ==> one_line(#[trigger] parts[q]),
    ensures
        split_on(join(parts, seq!['\n']), '\n') == parts,
    decreases parts.len(),
{
    let last = parts.last();
    assert(one_line(parts[parts.len() - 1]));
    if parts.len() == 1 {
        lemma_split_plain_tail(Seq::<char>::empty(), last, '\n');
        assert(Seq::<char>::empty() + last =~= last);
        assert(split_on(Seq::<char>::empty(), '\n') =~= seq![Seq::<char>::empty()]);
        assert(seq![Seq::<char>::empty()].update(0, Seq::<char>::empty() + last) =~= parts);
    } else {
        let init = parts.drop_last();
        assert forall|q: int| 0 <= q < init.len() implies one_line(#[trigger] init[q]) by {
            assert(init[q] == parts[q]);
        }
        lemma_split_joined_lines(init);
        let a = join(init, seq!['\n']);
        let an = a + seq!['\n'];
        assert(an.drop_last() =~= a);
        assert(split_on(an, '\n') == split_on(a, '\n').push(Seq::<char>::empty()));
        lemma_split_plain_tail(an, last, '\n');
        assert(join(parts, seq!['\n']) =~= an + last);
        assert(split_on(an, '\n').update(init.len() as int, Seq::<char>::empty() + last) =~= parts);
    }
}

/// The caption's text, split at its line breaks, is exactly its lines:
/// the header with the publication code (tagged ` #video` for videos and
/// animations) first, a `By` line exactly when the post credits artists, a
/// `Submitted by` line exactly when it has a submitter, and the Source /
/// More-like-this / Report links last. This holds whenever nothing that
/// goes into the caption (source, artists, warnings, submitter name, bot
/// name) holds a line break of its own.
#[verifier::spinoff_prover]
#[verifier::rlimit(30)]
pub proof fn lemma_caption_lines(
    p: PostView,
    poster: PosterId,
    users: Seq<User>,
    bot: Seq<char>,
    kind: MediaKind,
    warnings: Seq<Seq<char>>,
)
    requires
        one_line(p.source),
        one_line(bot),
        forall|q: int| 0 <= q < p.artists.len() ==> one_line(#[trigger] p.artists[q]),
        forall|q: int| 0 <= q < warnings.len() ==> one_line(#[trigger] warnings[q]),
        p.submitted_by matches Some(uid) ==> one_line(submitter_name(users, uid)),
    ensures
        ({
            let lines = split_on(caption_spec(p, poster, users, bot, kind, warnings), '\n');
            &&& lines == caption_lines(p, poster, users, bot, kind, warnings)
            &&& lines[0] == header_spec(publish_code_spec(p.source, poster), kind)
            &&& lines.last() == links_line(p.source, bot, p.id)
            &&& (exists|i: int| 0 <= i < lines.len() && lines[i] == "By "@ + join(escaped_all(p.artists), ", "@))
                <== p.artists.len() > 0
            &&& (exists|i: int| 0 <= i < lines.len() && lines[i] == "Submitted by "@ + escape_html_spec(submitter_name(users, p.submitted_by->0)))
                <== p.submitted_by is Some
            &&& lines.len() == 2 + (if warnings.len() > 0 { 1int } else { 0 }) + (if p.artists.len() > 0 { 1int } else { 0 })
                + (if p.submitted_by is Some { 1int } else { 0 }) + (if telegram_channel(p.source) is Some { 1int } else { 0 })
        }),
{
    lemma_lines_one_line(p, poster, users, bot, kind, warnings);
    let lines = caption_lines(p, poster, users, bot, kind, warnings);
    lemma_split_joined_lines(lines);
    let h = header_spec(publish_code_spec(p.source, poster), kind);
    let a = if warnings.len() > 0 { seq!["⚠️ CW: "@ + join(escaped_all(warnings), ", "@)] } else { Seq::<Seq<char>>::empty() };
    let b = if p.artists.len() > 0 { seq!["By "@ + join(escaped_all(p.artists), ", "@)] } else { Seq::<Seq<char>>::empty() };
    let c = match p.submitted_by {
        Some(uid) => seq!["Submitted by "@ + escape_html_spec(submitter_name(users, uid))],
        None => Seq::<Seq<char>>::empty(),
    };
    let d = match telegram_channel(p.source) {
        Some(ch) => seq!["Forwarded from channel: @"@ + escape_html_spec(ch)],
        None => Seq::<Seq<char>>::empty(),
    };
    let z = seq![links_line(p.source, bot, p.id)];
    assert(lines == seq![h] + a + b + c + d + z);
    assert(lines.len() == 2 + a.len() + b.len() + c.len() + d.len());
    assert(lines[0] == h);
    assert(lines.last() == links_line(p.source, bot, p.id));
    if p.artists.len() > 0 {
        let i: int = 1 + a.len() as int;
        assert(lines[i] == b[0]);
    }
    if p.submitted_by is Some {
        let i: int = 1 + a.len() as int + b.len() as int;
        assert(lines[i] == c[0]);
    }
    let ls = split_on(caption_spec(p, poster, users, bot, kind, warnings), '\n');
    assert(ls == lines);
    assert(ls.len() == 2 + (if warnings.len() > 0 { 1int } else { 0 }) + (if p.artists.len() > 0 { 1int } else { 0 })
        + (if p.submitted_by is Some { 1int } else { 0 }) + (if telegram_channel(p.source) is Some { 1int } else { 0 }));
}

/// The links line holds no line break when the source and bot name hold none.
proof fn lemma_links_one_line(source: Seq<char>, bot: Seq<char>, post: PostId)
    requires
        one_line(source),
        one_line(bot),
    ensures
        one_line(links_line(source, bot, post)),
{
    reveal_strlit("<a href=\"");
    reveal_strlit("\">Source</a> · <a href=\"https://t.me/");
    reveal_strlit("?start=more_");
    reveal_strlit("\">More like this</a> · <a href=\"https://t.me/");
    reveal_strlit("?start=report_");
    reveal_strlit("\">Report</a>");
    lemma_decimal_one_line(post.0 as nat);
    let id = decimal(post.0 as nat);
    assert(one_line("<a href=\""@));
    assert(one_line("\">Source</a> · <a href=\"https://t.me/"@));
    assert(one_line("?start=more_"@));
    assert(one_line("\">More like this</a> · <a href=\"https://t.me/"@));
    assert(one_line("?start=report_"@));
    assert(one_line("\">Report</a>"@));
    let l1 = "<a href=\""@ + source;
    lemma_one_line_add("<a href=\""@, source);
    let l2 = l1 + "\">Source</a> · <a href=\"https://t.me/"@;
    lemma_one_line_add(l1, "\">Source</a> · <a href=\"https://t.me/"@);
    let l3 = l2 + bot;
    lemma_one_line_add(l2, bot);
    let l4 = l3 + "?start=more_"@;
    lemma_one_line_add(l3, "?start=more_"@);
    let l5 = l4 + id;
    lemma_one_line_add(l4, id);
    let l6 = l5 + "\">More like this</a> · <a href=\"https://t.me/"@;
    lemma_one_line_add(l5, "\">More like this</a> · <a href=\"https://t.me/"@);
    let l7 = l6 + bot;
    lemma_one_line_add(l6, bot);
    let l8 = l7 + "?start=report_"@;
    lemma_one_line_add(l7, "?start=report_"@);
    let l9 = l8 + id;
    lemma_one_line_add(l8, id);
    lemma_one_line_add(l9, "\">Report</a>"@);
}

/// The header holds no line break.
proof fn lemma_header_one_line(source: Seq<char>, poster: PosterId, kind: MediaKind)
    ensures
        one_line(header_spec(publish_code_spec(source, poster), kind)),
{
    reveal_strlit("<code>#");
    reveal_strlit("</code>");
    reveal_strlit(" #video");
    let code = publish_code_spec(source, poster);
    lemma_base36_one_line(fnv(FNV_OFFSET, vstd::utf8::encode_utf8(source + decimal(poster.0 as nat))) as nat, 8);
    assert(one_line("<code>#"@));
    assert(one_line("</code>"@));
    assert(one_line(" #video"@));
    assert(one_line(Seq::<char>::empty()));
    lemma_one_line_add("<code>#"@, code);
    lemma_one_line_add("<code>#"@ + code, "</code>"@);
    let tail = if is_moving(kind) { " #video"@ } else { Seq::<char>::empty() };
    lemma_one_line_add("<code>#"@ + code + "</code>"@, tail);
}

/// Every caption line holds no line break when nothing that goes into it does.
proof fn lemma_lines_one_line(
    p: PostView,
    poster: PosterId,
    users: Seq<User>,
    bot: Seq<char>,
    kind: MediaKind,
    warnings: Seq<Seq<char>>,
)
    requires
        one_line(p.source),
        one_line(bot),
        forall|q: int| 0 <= q < p.artists.len() ==> one_line(#[trigger] p.artists[q]),
        forall|q: int| 0 <= q < warnings.len() ==> one_line(#[trigger] warnings[q]),
        p.submitted_by matches Some(uid) ==> one_line(submitter_name(users, uid)),
    ensures
        forall|q: int| 0 <= q < caption_lines(p, poster, users, bot, kind, warnings).len()
            ==> one_line(#[trigger] caption_lines(p, poster, users, bot, kind, warnings)[q]),
{
    reveal_strlit("⚠️ CW: ");
    reveal_strlit("By ");
    reveal_strlit("Submitted by ");
    reveal_strlit("Forwarded from channel: @");
    lemma_header_one_line(p.source, poster, kind);
    lemma_links_one_line(p.source, bot, p.id);
    let h = header_spec(publish_code_spec(p.source, poster), kind);
    let a = if warnings.len() > 0 { seq!["⚠️ CW: "@ + join(escaped_all(warnings), ", "@)] } else { Seq::<Seq<char>>::empty() };
    let b = if p.artists.len() > 0 { seq!["By "@ + join(escaped_all(p.artists), ", "@)] } else { Seq::<Seq<char>>::empty() };
    let c = match p.submitted_by {
        Some(uid) => seq!["Submitted by "@ + escape_html_spec(submitter_name(users, uid))],
        None => Seq::<Seq<char>>::empty(),
    };
    let d = match telegram_channel(p.source) {
        Some(ch) => seq!["Forwarded from channel: @"@ + escape_html_spec(ch)],
        None => Seq::<Seq<char>>::empty(),
    };
    let z = seq![links_line(p.source, bot, p.id)];
    if warnings.len() > 0 {
        assert(one_line("⚠️ CW: "@));
        lemma_joined_one_line(warnings);
        lemma_one_line_add("⚠️ CW: "@, join(escaped_all(warnings), ", "@));
    }
    if p.artists.len() > 0 {
        assert(one_line("By "@));
        lemma_joined_one_line(p.artists);
        lemma_one_line_add("By "@, join(escaped_all(p.artists), ", "@));
    }
    if let Some(uid) = p.submitted_by {
        assert(one_line("Submitted by "@));
        lemma_escape_one_line(submitter_name(users, uid));
        lemma_one_line_add("Submitted by "@, escape_html_spec(submitter_name(users, uid)));
    }
    if let Some(ch) = telegram_channel(p.source) {
        crate::text::lemma_first_idx(13, p.source.len() as int, crate::text::char_at(p.source, '/'));
        assert(one_line(ch)) by {
            assert forall|k: int| 0 <= k < ch.len() implies #[trigger] ch[k] != '\n' by {
                assert(ch[k] == p.source[13 + k]);
            }
        }
        assert(one_line("Forwarded from channel: @"@));
        lemma_escape_one_line(ch);
        lemma_one_line_add("Forwarded from channel: @"@, escape_html_spec(ch));
    }
    let lines = caption_lines(p, poster, users, bot, kind, warnings);
    assert(lines == seq![h] + a + b + c + d + z);
    assert forall|q: int| 0 <= q < lines.len() implies one_line(#[trigger] lines[q]) by {
        let n1 = 1 + a.len();
        let n2 = n1 + b.len();
        let n3 = n2 + c.len();
        let n4 = n3 + d.len();
        if q == 0 {
            assert(lines[q] == h);
        } else if q < n1 {
            assert(lines[q] == a[q - 1]);
        } else if q < n2 {
            assert(lines[q] == b[q - n1]);
        } else if q < n3 {
            assert(lines[q] == c[q - n2]);
        } else if q < n4 {
            assert(lines[q] == d[q - n3]);
        } else {
            assert(lines[q] == z[q - n4]);
        }
    }
}

} // verus!
