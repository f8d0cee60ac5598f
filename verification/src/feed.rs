//! The feed walk: which entry a Poster publishes next.
//!
//! A fire scans `(cursor, end]` in feed order and takes the first entry
//! the poster accepts, advancing the cursor to it; on a miss the cursor
//! moves to the feed end read before the scan, so entries appended while
//! scanning are never skipped. An entry is refused when it carries a
//! globally forbidden tag, one of the poster's forbidden tags, misses a
//! subscription term, or breaks one of the poster's rules.

use vstd::prelude::*;
use crate::post::{
    at_position, clone_post, feed_end_of, feed_window, listed, InMemoryPostRepository, Post,
    PostView,
};
use crate::poster::{Poster, PosterView};
use crate::tag_rule::{
    rule_holds, rule_text, term_holds, term_text, tag_set, Lit, RuleV, TagRule, TagTerm,
};
use crate::text::{contains_string, first_idx, lemma_first_idx, lemma_first_idx_is, push_str, views};

verus! {

/// Why a poster passes an entry over.
#[derive(Debug)]
pub enum Refusal {
    /// The entry carries one of the poster's forbidden tags.
    ForbiddenTag(String),
    /// A subscription term does not hold.
    Missing(TagTerm),
    /// A conditional rule is broken.
    RuleBroken(TagRule),
}

/// A refusal as a value.
pub enum RefusalView {
    ForbiddenTag(Seq<char>),
    Missing(Seq<Lit>),
    RuleBroken(RuleV),
}

impl View for Refusal {
    type V = RefusalView;

    open spec fn view(&self) -> RefusalView {
        match self {
            Refusal::ForbiddenTag(t) => RefusalView::ForbiddenTag(t@),
            Refusal::Missing(t) => RefusalView::Missing(t@),
            Refusal::RuleBroken(r) => RefusalView::RuleBroken(r@),
        }
    }
}

pub open spec fn opt_refusal(r: Option<Refusal>) -> Option<RefusalView> {
    match r {
        Some(x) => Some(x@),
        None => None,
    }
}

pub open spec fn forbidden_hit(forbidden: Seq<Seq<char>>, tags: Set<Seq<char>>) -> spec_fn(int) -> bool {
    |i: int| tags.contains(forbidden[i])
}

pub open spec fn unmet(terms: Seq<Seq<Lit>>, tags: Set<Seq<char>>) -> spec_fn(int) -> bool {
    |i: int| !term_holds(terms[i], tags)
}

pub open spec fn broken(rules: Seq<RuleV>, tags: Set<Seq<char>>) -> spec_fn(int) -> bool {
    |i: int| !rule_holds(rules[i], tags)
}

/// The first reason, in checking order (forbidden tags, then subscription
/// terms, then rules, each in list order), that `p` refuses `tags`.
pub open spec fn refusal_spec(p: PosterView, tags: Set<Seq<char>>) -> Option<RefusalView> {
    let f = first_idx(0, p.forbidden.len() as int, forbidden_hit(p.forbidden, tags));
    let m = first_idx(0, p.subscribed.len() as int, unmet(p.subscribed, tags));
    let b = first_idx(0, p.rules.len() as int, broken(p.rules, tags));
    if f < p.forbidden.len() {
        Some(RefusalView::ForbiddenTag(p.forbidden[f]))
    } else if m < p.subscribed.len() {
        Some(RefusalView::Missing(p.subscribed[m]))
    } else if b < p.rules.len() {
        Some(RefusalView::RuleBroken(p.rules[b]))
    } else {
        None
    }
}

/// `p` accepts an entry with `tags`: no forbidden tag, every subscription
/// term holds, every rule holds.
pub open spec fn accepts(p: PosterView, tags: Set<Seq<char>>) -> bool {
    &&& forall|i: int| 0 <= i < p.forbidden.len() ==> !tags.contains(#[trigger] p.forbidden[i])
    &&& forall|i: int| 0 <= i < p.subscribed.len() ==> term_holds(#[trigger] p.subscribed[i], tags)
    &&& forall|i: int| 0 <= i < p.rules.len() ==> rule_holds(#[trigger] p.rules[i], tags)
}

/// A poster refuses exactly the entries it does not accept.
pub proof fn lemma_refusal_iff(p: PosterView, tags: Set<Seq<char>>)
    ensures
        refusal_spec(p, tags) is None <==> accepts(p, tags),
{
    let fp = forbidden_hit(p.forbidden, tags);
    let mp = unmet(p.subscribed, tags);
    let bp = broken(p.rules, tags);
    lemma_first_idx(0, p.forbidden.len() as int, fp);
    lemma_first_idx(0, p.subscribed.len() as int, mp);
    lemma_first_idx(0, p.rules.len() as int, bp);
    if accepts(p, tags) {
        assert forall|i: int| 0 <= i < p.forbidden.len() implies !#[trigger] fp(i) by {
            assert(!tags.contains(p.forbidden[i]));
        }
        assert forall|i: int| 0 <= i < p.subscribed.len() implies !#[trigger] mp(i) by {
            assert(term_holds(p.subscribed[i], tags));
        }
        assert forall|i: int| 0 <= i < p.rules.len() implies !#[trigger] bp(i) by {
            assert(rule_holds(p.rules[i], tags));
        }
        lemma_first_idx_is(0, p.forbidden.len() as int, p.forbidden.len() as int, fp);
        lemma_first_idx_is(0, p.subscribed.len() as int, p.subscribed.len() as int, mp);
        lemma_first_idx_is(0, p.rules.len() as int, p.rules.len() as int, bp);
    } else {
        let f = first_idx(0, p.forbidden.len() as int, fp);
        let m = first_idx(0, p.subscribed.len() as int, mp);
        let b = first_idx(0, p.rules.len() as int, bp);
        if !(forall|i: int| 0 <= i < p.forbidden.len() ==> !tags.contains(#[trigger] p.forbidden[i])) {
            let i = choose|i: int| 0 <= i < p.forbidden.len() && tags.contains(#[trigger] p.forbidden[i]);
            assert(fp(i));
            assert(f < p.forbidden.len());
        } else if !(forall|i: int| 0 <= i < p.subscribed.len() ==> term_holds(#[trigger] p.subscribed[i], tags)) {
            let i = choose|i: int| 0 <= i < p.subscribed.len() && !term_holds(#[trigger] p.subscribed[i], tags);
            assert(mp(i));
            assert(m < p.subscribed.len());
        } else {
            let i = choose|i: int| 0 <= i < p.rules.len() && !rule_holds(#[trigger] p.rules[i], tags);
            assert(bp(i));
            assert(b < p.rules.len());
        }
    }
}

/// Why `poster` would pass over an entry with these tags, or `None` when it
/// would post it.
pub fn refusal_for(poster: &Poster, tags: &[String]) -> (r: Option<Refusal>)
    ensures
        opt_refusal(r) == refusal_spec(poster@, tag_set(tags@)),
{
    let ghost set = tag_set(tags@);
    let ghost pv = poster@;
    let ghost fp = forbidden_hit(pv.forbidden, set);
    let ghost mp = unmet(pv.subscribed, set);
    let ghost bp = broken(pv.rules, set);
    let mut i: usize = 0;
    while i < poster.forbidden_tags.len()
        invariant
            i <= poster.forbidden_tags.len(),
            pv == poster@,
            set == tag_set(tags@),
            fp == forbidden_hit(pv.forbidden, set),
            forall|k: int| 0 <= k < i ==> !#[trigger] fp(k),
        decreases poster.forbidden_tags.len() - i,
    {
        if contains_string(tags, &poster.forbidden_tags[i]) {
            assert(fp(i as int));
            proof {
                lemma_first_idx_is(0, i as int, pv.forbidden.len() as int, fp);
            }
            return Some(Refusal::ForbiddenTag(poster.forbidden_tags[i].clone()));
        }
        i = i + 1;
    }
    proof {
        lemma_first_idx_is(0, pv.forbidden.len() as int, pv.forbidden.len() as int, fp);
    }
    let mut j: usize = 0;
    while j < poster.subscribed_tags.len()
        invariant
            j <= poster.subscribed_tags.len(),
            pv == poster@,
            set == tag_set(tags@),
            fp == forbidden_hit(pv.forbidden, set),
            mp == unmet(pv.subscribed, set),
            first_idx(0, pv.forbidden.len() as int, fp) == pv.forbidden.len(),
            forall|k: int| 0 <= k < j ==> !#[trigger] mp(k),
        decreases poster.subscribed_tags.len() - j,
    {
        if !poster.subscribed_tags[j].passes(tags) {
            assert(mp(j as int));
            proof {
                lemma_first_idx_is(0, j as int, pv.subscribed.len() as int, mp);
            }
            return Some(Refusal::Missing(poster.subscribed_tags[j].copy()));
        }
        j = j + 1;
    }
    proof {
        lemma_first_idx_is(0, pv.subscribed.len() as int, pv.subscribed.len() as int, mp);
    }
    let mut k: usize = 0;
    while k < poster.rules.len()
        invariant
            k <= poster.rules.len(),
            pv == poster@,
            set == tag_set(tags@),
            fp == forbidden_hit(pv.forbidden, set),
            mp == unmet(pv.subscribed, set),
            bp == broken(pv.rules, set),
            first_idx(0, pv.forbidden.len() as int, fp) == pv.forbidden.len(),
            first_idx(0, pv.subscribed.len() as int, mp) == pv.subscribed.len(),
            forall|q: int| 0 <= q < k ==> !#[trigger] bp(q),
        decreases poster.rules.len() - k,
    {
        if !poster.rules[k].passes(tags) {
            assert(bp(k as int));
            proof {
                lemma_first_idx_is(0, k as int, pv.rules.len() as int, bp);
            }
            return Some(Refusal::RuleBroken(poster.rules[k].copy()));
        }
        k = k + 1;
    }
    proof {
        lemma_first_idx_is(0, pv.rules.len() as int, pv.rules.len() as int, bp);
    }
    None
}

/// The refusal in words.
pub open spec fn refusal_text(r: RefusalView) -> Seq<char> {
    match r {
        RefusalView::ForbiddenTag(t) => "forbidden tag `"@ + t + "`"@,
        RefusalView::Missing(t) => "missing `"@ + term_text(t) + "`"@,
        RefusalView::RuleBroken(rule) => "rule `"@ + rule_text(rule) + "` not satisfied"@,
    }
}

impl Refusal {
    pub fn to_string(&self) -> (s: String)
        ensures
            s@ == refusal_text(self@),
    {
        let mut s = String::new();
        match self {
            Refusal::ForbiddenTag(t) => {
                push_str(&mut s, "forbidden tag `");
                push_str(&mut s, t.as_str());
                push_str(&mut s, "`");
            },
            Refusal::Missing(t) => {
                push_str(&mut s, "missing `");
                let text = t.to_string();
                push_str(&mut s, text.as_str());
                push_str(&mut s, "`");
            },
            Refusal::RuleBroken(rule) => {
                push_str(&mut s, "rule `");
                let text = rule.to_string();
                push_str(&mut s, text.as_str());
                push_str(&mut s, "` not satisfied");
            },
        }
        s
    }
}

// --------------------------------------------------------------- scan ----

/// The entry carries a tag of the global forbidden list.
pub open spec fn globally_forbidden(global: Set<Seq<char>>, e: PostView) -> bool {
    exists|k: int| 0 <= k < e.tags.len() && global.contains(#[trigger] e.tags[k])
}

/// The poster would publish this entry.
pub open spec fn publishable(p: PosterView, global: Set<Seq<char>>, e: PostView) -> bool {
    !globally_forbidden(global, e) && refusal_spec(p, e.tags.to_set()) is None
}

pub open spec fn publishable_at(p: PosterView, global: Set<Seq<char>>, w: Seq<PostView>) -> spec_fn(int) -> bool {
    |i: int| publishable(p, global, w[i])
}

/// Index of the first publishable entry of `w`, or `w.len()`.
pub open spec fn first_publishable(p: PosterView, global: Set<Seq<char>>, w: Seq<PostView>) -> int {
    first_idx(0, w.len() as int, publishable_at(p, global, w))
}

/// The outcome of one scan.
#[derive(Debug)]
pub struct FeedPick {
    /// The entry to publish, if any.
    pub post: Option<Post>,
    /// Where the cursor goes once the pick is handled.
    pub advance_to: u64,
}

/// What a scan of window `w` (read with feed end `end`) picks: the first
/// publishable entry and its position, or nothing and `end`.
pub open spec fn pick_spec(p: PosterView, global: Set<Seq<char>>, w: Seq<PostView>, end: u64) -> (Option<PostView>, u64) {
    let i = first_publishable(p, global, w);
    if i < w.len() {
        (Some(w[i]), w[i].feed_position->0)
    } else {
        (None, end)
    }
}

pub open spec fn pick_view(pick: FeedPick) -> (Option<PostView>, u64) {
    (match pick.post {
        Some(q) => Some(q@),
        None => None,
    }, pick.advance_to)
}

/// The entry carries a tag of `global`.
fn carries_any(global: &[String], tags: &Vec<String>) -> (b: bool)
    ensures
        b == exists|k: int| 0 <= k < tags@.len() && views(global@).to_set().contains(#[trigger] views(tags@)[k]),
{
    let mut k: usize = 0;
    while k < tags.len()
        invariant
            k <= tags.len(),
            forall|q: int| 0 <= q < k ==> !views(global@).to_set().contains(#[trigger] views(tags@)[q]),
        decreases tags.len() - k,
    {
        if contains_string(global, &tags[k]) {
            assert(views(global@).contains(views(tags@)[k as int]));
            assert(views(global@).to_set().contains(views(tags@)[k as int]));
            return true;
        }
        assert(!views(global@).contains(views(tags@)[k as int]));
        k = k + 1;
    }
    false
}

/// Pick from an already-read window: the first entry the poster would
/// publish, or nothing (the cursor then goes to `end`).
pub fn pick_first(poster: &Poster, global: &[String], window: &Vec<Post>, end: u64) -> (pick: FeedPick)
    requires
        forall|i: int| 0 <= i < window@.len() ==> (#[trigger] window@[i]).feed_position is Some,
    ensures
        pick_view(pick) == pick_spec(poster@, views(global@).to_set(), window@.map_values(|q: Post| q@), end),
{
    let ghost g = views(global@).to_set();
    let ghost w = window@.map_values(|q: Post| q@);
    let ghost pred = publishable_at(poster@, g, w);
    let mut i: usize = 0;
    while i < window.len()
        invariant
            i <= window.len(),
            g == views(global@).to_set(),
            w == window@.map_values(|q: Post| q@),
            pred == publishable_at(poster@, g, w),
            forall|k: int| 0 <= k < window@.len() ==> (#[trigger] window@[k]).feed_position is Some,
            forall|k: int| 0 <= k < i ==> !#[trigger] pred(k),
        decreases window.len() - i,
    {
        let entry = &window[i];
        assert(w[i as int] == entry@);
        assert(entry@.tags == views(entry.tags@));
        assert(tag_set(entry.tags@) == entry@.tags.to_set());
        let banned = carries_any(global, &entry.tags);
        if !banned {
            let refusal = refusal_for(poster, entry.tags.as_slice());
            if refusal.is_none() {
                assert(pred(i as int));
                proof {
                    lemma_first_idx_is(0, i as int, w.len() as int, pred);
                }
                let pos = match entry.feed_position {
                    Some(p) => p,
                    None => end,
                };
                return FeedPick { post: Some(clone_post(entry)), advance_to: pos };
            }
        }
        assert(!pred(i as int));
        i = i + 1;
    }
    proof {
        lemma_first_idx_is(0, w.len() as int, w.len() as int, pred);
    }
    FeedPick { post: None, advance_to: end }
}

/// Every entry of a window holds a position inside it, in increasing
/// order, and is listed.
pub proof fn lemma_window_entries(ps: Seq<PostView>, lo: int, hi: int)
    requires
        hi <= u64::MAX,
    ensures
        forall|k: int| 0 <= k < feed_window(ps, lo, hi).len() ==> {
            let e = #[trigger] feed_window(ps, lo, hi)[k];
            &&& e.feed_position is Some
            &&& lo < e.feed_position->0 <= hi
            &&& listed(e)
        },
        forall|a: int, b: int| 0 <= a < b < feed_window(ps, lo, hi).len() ==>
            (#[trigger] feed_window(ps, lo, hi)[a]).feed_position->0 < (#[trigger] feed_window(ps, lo, hi)[b]).feed_position->0,
    decreases hi - lo,
{
    if hi <= lo || hi < 0 {
    } else {
        lemma_window_entries(ps, lo, hi - 1);
        let prev = feed_window(ps, lo, hi - 1);
        match at_position(ps, hi as u64) {
            Some(p) => {
                let i = choose|i: int| 0 <= i < ps.len() && ps[i].feed_position == Some(hi as u64);
                assert(p.feed_position == Some(hi as u64));
                if listed(p) {
                    let w = prev.push(p);
                    assert(feed_window(ps, lo, hi) == w);
                    assert forall|k: int| 0 <= k < w.len() implies {
                        let e = #[trigger] w[k];
                        &&& e.feed_position is Some
                        &&& lo < e.feed_position->0 <= hi
                        &&& listed(e)
                    } by {
                        if k < prev.len() {
                            assert(w[k] == prev[k]);
                        }
                    }
                    assert forall|a: int, b: int| 0 <= a < b < w.len() implies
                        (#[trigger] w[a]).feed_position->0 < (#[trigger] w[b]).feed_position->0 by {
                        assert(w[a] == prev[a]);
                        if b < prev.len() {
                            assert(w[b] == prev[b]);
                        }
                    }
                }
            },
            None => {},
        }
    }
}

/// The next entry `poster` publishes from the feed of `posts`, with
/// `global` as the globally forbidden tags. The feed end is read once,
/// before the scan.
pub fn next_post(posts: &InMemoryPostRepository, poster: &Poster, global: &[String]) -> (pick: FeedPick)
    ensures
        pick_view(pick) == pick_spec(
            poster@,
            views(global@).to_set(),
            feed_window(posts@, poster.cursor as int, feed_end_of(posts@) as int),
            feed_end_of(posts@) as u64,
        ),
{
    let end = posts.feed_end();
    let window = posts.feed_after(poster.cursor, end);
    proof {
        lemma_window_entries(posts@, poster.cursor as int, end as int);
        let w = feed_window(posts@, poster.cursor as int, end as int);
        assert(window@.map_values(|q: Post| q@) =~= crate::post::post_views(window@));
        assert forall|i: int| 0 <= i < window@.len() implies (#[trigger] window@[i]).feed_position is Some by {
            assert(crate::post::post_views(window@)[i] == window@[i]@);
            assert(w[i] == window@[i]@);
        }
    }
    pick_first(poster, global, &window, end)
}

/// A pick never moves the cursor backwards: a hit lies after the cursor,
/// and a miss moves to the feed end read before the scan.
pub proof fn lemma_pick_advances(p: PosterView, global: Set<Seq<char>>, ps: Seq<PostView>)
    requires
        p.cursor <= feed_end_of(ps),
        feed_end_of(ps) <= u64::MAX,
    ensures
        ({
            let pick = pick_spec(p, global, feed_window(ps, p.cursor as int, feed_end_of(ps) as int), feed_end_of(ps) as u64);
            &&& p.cursor <= pick.1 <= feed_end_of(ps)
            &&& pick.0 is Some ==> pick.1 > p.cursor && pick.0->0.feed_position == Some(pick.1)
        }),
{
    let w = feed_window(ps, p.cursor as int, feed_end_of(ps) as int);
    lemma_window_entries(ps, p.cursor as int, feed_end_of(ps) as int);
    let pred = publishable_at(p, global, w);
    lemma_first_idx(0, w.len() as int, pred);
}

/// The pick is the first publishable entry after the cursor: everything
/// the scan passes over before it is unpublishable for this poster.
pub proof fn lemma_pick_is_first(p: PosterView, global: Set<Seq<char>>, w: Seq<PostView>, end: u64)
    ensures
        ({
            let pick = pick_spec(p, global, w, end);
            &&& pick.0 is Some ==> publishable(p, global, pick.0->0)
            &&& forall|k: int| 0 <= k < w.len() && (pick.0 is None || w[k].feed_position->0 < pick.1)
                && (forall|a: int, b: int| 0 <= a < b < w.len() ==> (#[trigger] w[a]).feed_position->0 < (#[trigger] w[b]).feed_position->0)
                ==> !publishable(p, global, #[trigger] w[k])
        }),
{
    let pred = publishable_at(p, global, w);
    lemma_first_idx(0, w.len() as int, pred);
    let i = first_publishable(p, global, w);
    assert forall|k: int| 0 <= k < w.len() && (pick_spec(p, global, w, end).0 is None || w[k].feed_position->0 < pick_spec(p, global, w, end).1)
        && (forall|a: int, b: int| 0 <= a < b < w.len() ==> (#[trigger] w[a]).feed_position->0 < (#[trigger] w[b]).feed_position->0)
        implies !publishable(p, global, #[trigger] w[k]) by {
        if i < w.len() {
            if k >= i {
                if k > i {
                    assert(w[i].feed_position->0 < w[k].feed_position->0);
                }
            }
        }
        assert(!pred(k));
    }
}

/// Consume-once: a poster whose cursor has reached the feed end stays
/// quiet (nothing is picked and the cursor stays put) until new entries are
/// curated; and after a hit, the next fire from the advanced cursor can
/// only pick an entry further down the feed.
pub proof fn lemma_consume_once(p: PosterView, global: Set<Seq<char>>, ps: Seq<PostView>)
    requires
        p.cursor <= feed_end_of(ps),
        feed_end_of(ps) <= u64::MAX,
    ensures
        p.cursor == feed_end_of(ps) ==> pick_spec(p, global, feed_window(ps, p.cursor as int, feed_end_of(ps) as int), feed_end_of(ps) as u64)
            == (None::<PostView>, p.cursor),
        ({
            let first = pick_spec(p, global, feed_window(ps, p.cursor as int, feed_end_of(ps) as int), feed_end_of(ps) as u64);
            let q = PosterView { cursor: first.1, ..p };
            let second = pick_spec(q, global, feed_window(ps, q.cursor as int, feed_end_of(ps) as int), feed_end_of(ps) as u64);
            &&& first.1 <= second.1
            &&& second.0 is Some ==> second.0->0.feed_position->0 > first.1
        }),
{
    let w = feed_window(ps, p.cursor as int, feed_end_of(ps) as int);
    if p.cursor == feed_end_of(ps) {
        assert(w.len() == 0);
        lemma_first_idx(0, 0, publishable_at(p, global, w));
    }
    lemma_pick_advances(p, global, ps);
    let first = pick_spec(p, global, w, feed_end_of(ps) as u64);
    let q = PosterView { cursor: first.1, ..p };
    lemma_pick_advances(q, global, ps);
}

} // verus!
