//! Out-of-band pool publication: post a staged pool now instead of letting
//! it drip one page per tick.
//!
//! The batch goes to every bound poster that accepts the triggering post. Within
//! the batch each page still respects a poster's own forbidden tags, but
//! not its subscription or rules. A pool of up to `POOL_BURST_MAX` pages
//! goes out in one burst; bigger ones in groups of `POOL_CHUNK_SIZE` with a
//! pause between groups. Failures never abort the batch.
//!
//! `PoolBatch` decides each step; the caller resolves media, sends, and
//! sleeps, and reports back what happened.

use vstd::prelude::*;
use crate::feed::{refusal_for, refusal_spec};
use crate::poster::{copy_poster, poster_views, Poster, PosterView};
use crate::scheduler::ResolveOutcome;
use crate::tag_rule::tag_set;
use crate::text::{decimal, join, join_with, push_decimal, push_str, clone_strings, contains_string, first_idx, lemma_first_idx, lemma_first_idx_is, views};

verus! {

/// Pools up to this size post in one burst.
pub const POOL_BURST_MAX: usize = 10;
/// Bigger pools go out in groups of this many pages.
pub const POOL_CHUNK_SIZE: usize = 5;
/// The pause between groups, in seconds.
pub const POOL_CHUNK_PAUSE_SECS: u64 = 30;

/// What happened to a pool batch, for the moderator's summary.
#[derive(Debug, Clone, Copy, PartialEq, Eq, Structural)]
pub struct PoolBatchReport {
    /// Posters that accepted the triggering post.
    pub channels: usize,
    /// Pages that reached at least one channel.
    pub published: usize,
    /// Pages whose media could not be resolved.
    pub unresolved: usize,
    /// Page×channel sends that were refused.
    pub send_failures: usize,
    /// Page×channel skips from a poster's own forbidden tags.
    pub poster_skips: usize,
}

/// The posters of `ps` that accept the trigger's tags and have a bound
/// publisher (`bound`, one flag per poster), in order.
pub open spec fn targets_spec(ps: Seq<PosterView>, bound: Seq<bool>, tags: Set<Seq<char>>) -> Seq<PosterView>
    decreases ps.len(),
{
    if ps.len() == 0 {
        seq![]
    } else {
        let prev = targets_spec(ps.drop_last(), bound.drop_last(), tags);
        if refusal_spec(ps.last(), tags) is None && bound.last() { prev.push(ps.last()) } else { prev }
    }
}

/// The posters that receive the batch: every one whose full eligibility
/// check (forbidden tags, subscription, rules) accepts the triggering
/// post's tags and that has a publisher bound to it (`bound[i]` for
/// `posters[i]`; an unbound poster, or one whose publisher could not be
/// built, is passed over).
pub fn pool_targets(posters: &Vec<Poster>, bound: &[bool], trigger_tags: &[String]) -> (r: Vec<Poster>)
    requires
        bound.len() == posters.len(),
    ensures
        poster_views(r@) == targets_spec(poster_views(posters@), bound@, tag_set(trigger_tags@)),
{
    let ghost ps = poster_views(posters@);
    let mut r: Vec<Poster> = Vec::new();
    let mut k: usize = 0;
    while k < posters.len()
        invariant
            k <= posters.len() == bound.len(),
            ps == poster_views(posters@),
            poster_views(r@) == targets_spec(ps.take(k as int), bound@.take(k as int), tag_set(trigger_tags@)),
        decreases posters.len() - k,
    {
        assert(ps.take(k + 1).drop_last() =~= ps.take(k as int));
        assert(bound@.take(k + 1).drop_last() =~= bound@.take(k as int));
        assert(ps.take(k + 1).last() == posters@[k as int]@);
        assert(bound@.take(k + 1).last() == bound@[k as int]);
        if refusal_for(&posters[k], trigger_tags).is_none() && bound[k] {
            let ghost before = r@;
            r.push(copy_poster(&posters[k]));
            assert(poster_views(r@) =~= poster_views(before).push(posters@[k as int]@));
        }
        k = k + 1;
    }
    assert(ps.take(posters.len() as int) =~= ps);
    assert(bound@.take(posters.len() as int) =~= bound@);
    r
}

/// Pages per group: the whole pool when it is small, else groups of five.
pub open spec fn chunk_for(n: int) -> int {
    if n <= POOL_BURST_MAX { n } else { POOL_CHUNK_SIZE as int }
}

pub fn chunk_size(pages: usize) -> (c: usize)
    ensures
        c == chunk_for(pages as int),
{
    if pages <= POOL_BURST_MAX { pages } else { POOL_CHUNK_SIZE }
}

/// A page carries one of a target's forbidden tags.
pub open spec fn page_skipped(page: Seq<Seq<char>>, forbidden: Seq<Seq<char>>) -> bool {
    exists|k: int| 0 <= k < forbidden.len() && page.contains(#[trigger] forbidden[k])
}

#[derive(Debug, Clone, Copy, PartialEq, Eq, Structural)]
pub enum PoolPhase {
    /// Waiting for the current page's media.
    Resolving,
    /// Waiting for the current send.
    Sending,
    /// Waiting out the pause between groups.
    Pausing,
    /// Waiting for the current page, gone upstream, to be marked MediaGone.
    Marking,
    Finished,
}

/// The next thing to do.
#[derive(Debug, Clone, Copy, PartialEq, Eq, Structural)]
pub enum PoolStep {
    /// Resolve the media of this page.
    Resolve(usize),
    /// Send this page to this target.
    Send { page: usize, target: usize },
    /// Pause before the next group.
    Pause,
    /// Mark this page MediaGone: its upstream is gone.
    MarkGone(usize),
    /// The batch is over; the report is final.
    Done,
}

/// A batch as a value.
pub struct PoolBatchView {
    pub pages: Seq<Seq<Seq<char>>>,
    pub forbidden: Seq<Seq<Seq<char>>>,
    pub chunk: int,
    pub page: int,
    pub target: int,
    pub delivered: bool,
    pub phase: PoolPhase,
    pub report: PoolBatchReport,
}

/// The batch over a staged pool.
pub struct PoolBatch {
    /// Each page's tags, in pool order.
    page_tags: Vec<Vec<String>>,
    /// Each target's forbidden tags.
    target_forbidden: Vec<Vec<String>>,
    chunk: usize,
    page: usize,
    target: usize,
    delivered: bool,
    phase: PoolPhase,
    report: PoolBatchReport,
}

pub open spec fn nested_views(v: Seq<Vec<String>>) -> Seq<Seq<Seq<char>>> {
    v.map_values(|x: Vec<String>| views(x@))
}

impl View for PoolBatch {
    type V = PoolBatchView;

    closed spec fn view(&self) -> PoolBatchView {
        PoolBatchView {
            pages: nested_views(self.page_tags@),
            forbidden: nested_views(self.target_forbidden@),
            chunk: self.chunk as int,
            page: self.page as int,
            target: self.target as int,
            delivered: self.delivered,
            phase: self.phase,
            report: self.report,
        }
    }
}

pub open spec fn skips_at(v: PoolBatchView) -> spec_fn(int) -> bool {
    |j: int| !page_skipped(v.pages[v.page], v.forbidden[j])
}

/// The first target from `v.target` on that does not skip the current page.
pub open spec fn next_sender(v: PoolBatchView) -> int {
    first_idx(v.target, v.forbidden.len() as int, skips_at(v))
}

/// After the current page: the next page, a pause before a new group, or
/// the end.
pub open spec fn next_page(v: PoolBatchView, report: PoolBatchReport) -> (PoolBatchView, PoolStep) {
    let p = v.page + 1;
    if p == v.pages.len() {
        (PoolBatchView { page: p, target: 0, delivered: false, phase: PoolPhase::Finished, report, ..v }, PoolStep::Done)
    } else if p % v.chunk == 0 {
        (PoolBatchView { page: p, target: 0, delivered: false, phase: PoolPhase::Pausing, report, ..v }, PoolStep::Pause)
    } else {
        (PoolBatchView { page: p, target: 0, delivered: false, phase: PoolPhase::Resolving, report, ..v }, PoolStep::Resolve(p as usize))
    }
}

/// Walk the targets from `v.target`: those whose forbidden tags hit the
/// page are skipped (and counted); the first other one gets the page. With
/// none left the page is done, counted as published when it reached one.
pub open spec fn advance_spec(v: PoolBatchView) -> (PoolBatchView, PoolStep) {
    let j = next_sender(v);
    let report = PoolBatchReport { poster_skips: (v.report.poster_skips + (j - v.target)) as usize, ..v.report };
    if j < v.forbidden.len() {
        (PoolBatchView { target: j, phase: PoolPhase::Sending, report, ..v }, PoolStep::Send { page: v.page as usize, target: j as usize })
    } else {
        next_page(v, PoolBatchReport {
            published: if v.delivered { (report.published + 1) as usize } else { report.published },
            ..report
        })
    }
}

/// The media of the current page came back: resolved pages go to the
/// targets, a page gone upstream is marked MediaGone first, a transient
/// failure leaves the page behind; both failures count as unresolved.
pub open spec fn on_resolved_spec(v: PoolBatchView, outcome: ResolveOutcome) -> (PoolBatchView, PoolStep) {
    match outcome {
        ResolveOutcome::Resolved => advance_spec(PoolBatchView { target: 0, delivered: false, ..v }),
        ResolveOutcome::Gone => (PoolBatchView { phase: PoolPhase::Marking, ..v }, PoolStep::MarkGone(v.page as usize)),
        ResolveOutcome::Failed => next_page(v, PoolBatchReport { unresolved: (v.report.unresolved + 1) as usize, ..v.report }),
    }
}

/// The gone page was marked: it counts as unresolved and the batch goes on.
pub open spec fn on_marked_spec(v: PoolBatchView) -> (PoolBatchView, PoolStep) {
    next_page(v, PoolBatchReport { unresolved: (v.report.unresolved + 1) as usize, ..v.report })
}

/// The current send came back (or not).
pub open spec fn on_sent_spec(v: PoolBatchView, ok: bool) -> (PoolBatchView, PoolStep) {
    advance_spec(PoolBatchView {
        target: v.target + 1,
        delivered: v.delivered || ok,
        report: if ok { v.report } else { PoolBatchReport { send_failures: (v.report.send_failures + 1) as usize, ..v.report } },
        ..v
    })
}

/// The counters and indices are within bounds.
pub open spec fn core_ok(v: PoolBatchView) -> bool {
    let n = v.pages.len() as int;
    let m = v.forbidden.len() as int;
    &&& n * m <= usize::MAX
    &&& n <= usize::MAX
    &&& v.chunk == chunk_for(n)
    &&& 0 <= v.page <= n
    &&& 0 <= v.target <= m
    &&& v.report.channels == m
    &&& v.report.published + v.report.unresolved <= v.page
    &&& v.report.send_failures + v.report.poster_skips <= v.page * m + v.target
}

pub open spec fn batch_ok(v: PoolBatchView) -> bool {
    let n = v.pages.len() as int;
    let m = v.forbidden.len() as int;
    &&& core_ok(v)
    &&& n * m <= usize::MAX
    &&& v.chunk == chunk_for(n)
    &&& 0 <= v.page <= n
    &&& 0 <= v.target <= m
    &&& v.report.channels == m
    &&& v.report.published + v.report.unresolved <= v.page
    &&& v.report.send_failures + v.report.poster_skips <= v.page * m + v.target
    &&& (v.phase == PoolPhase::Finished <==> v.page == n)
    &&& v.phase == PoolPhase::Resolving ==> v.target == 0 && !v.delivered && m > 0
    &&& v.phase == PoolPhase::Pausing ==> v.target == 0 && !v.delivered && m > 0 && v.page > 0
    &&& v.phase == PoolPhase::Marking ==> v.target == 0 && !v.delivered && m > 0
    &&& v.phase == PoolPhase::Sending ==> v.target < m
}

/// A page carries one of these forbidden tags.
fn carries_forbidden(page: &Vec<String>, forbidden: &Vec<String>) -> (b: bool)
    ensures
        b == page_skipped(views(page@), views(forbidden@)),
{
    let mut k: usize = 0;
    while k < forbidden.len()
        invariant
            k <= forbidden.len(),
            forall|q: int| 0 <= q < k ==> !views(page@).contains(#[trigger] views(forbidden@)[q]),
        decreases forbidden.len() - k,
    {
        if contains_string(page.as_slice(), &forbidden[k]) {
            assert(views(page@).contains(views(forbidden@)[k as int]));
            return true;
        }
        k = k + 1;
    }
    false
}

pub open spec fn page_count(p: &PoolBatch) -> int {
    p@.pages.len() as int
}

impl PoolBatch {
    /// The batch's bookkeeping is consistent.
    pub closed spec fn wf(&self) -> bool {
        batch_ok(self@)
    }

    /// The tally so far.
    pub fn report(&self) -> (r: PoolBatchReport)
        ensures
            r == self@.report,
    {
        self.report
    }

    /// Start a batch over pages with these tags (pool order), for targets
    /// with these forbidden tags. With no page or no target there is
    /// nothing to do.
    pub fn new(page_tags: Vec<Vec<String>>, target_forbidden: Vec<Vec<String>>) -> (r: (PoolBatch, PoolStep))
        requires
            page_tags@.len() * target_forbidden@.len() <= usize::MAX,
        ensures
            r.0.wf(),
            r.0@.pages == nested_views(page_tags@),
            r.0@.forbidden == nested_views(target_forbidden@),
            r.0@.chunk == chunk_for(page_tags@.len() as int),
            r.0@.report == (PoolBatchReport {
                channels: target_forbidden@.len() as usize,
                published: 0,
                unresolved: 0,
                send_failures: 0,
                poster_skips: 0,
            }),
            (target_forbidden@.len() == 0 || page_tags@.len() == 0) ==> r.1 == PoolStep::Done && r.0@.phase == PoolPhase::Finished,
            !(target_forbidden@.len() == 0 || page_tags@.len() == 0) ==> r.1 == PoolStep::Resolve(0)
                && r.0@.phase == PoolPhase::Resolving && r.0@.page == 0,
    {
        let n = page_tags.len();
        let m = target_forbidden.len();
        let report = PoolBatchReport { channels: m, published: 0, unresolved: 0, send_failures: 0, poster_skips: 0 };
        let chunk = chunk_size(n);
        if n == 0 || m == 0 {
            proof {
                assert(0 * m == 0) by (nonlinear_arith);
                assert(n * m <= n * m);
            }
            let b = PoolBatch {
                page_tags, target_forbidden, chunk, page: n, target: 0, delivered: false,
                phase: PoolPhase::Finished, report,
            };
            proof {
                assert(b@.report.send_failures + b@.report.poster_skips <= b@.page * (b@.forbidden.len() as int) + b@.target) by (nonlinear_arith)
                    requires b@.page >= 0, b@.forbidden.len() >= 0, b@.target >= 0, b@.report.send_failures == 0, b@.report.poster_skips == 0;
            }
            assert(batch_ok(b@));
            (b, PoolStep::Done)
        } else {
            let b = PoolBatch {
                page_tags, target_forbidden, chunk, page: 0, target: 0, delivered: false,
                phase: PoolPhase::Resolving, report,
            };
            proof {
                assert(b@.report.send_failures + b@.report.poster_skips <= b@.page * (b@.forbidden.len() as int) + b@.target) by (nonlinear_arith)
                    requires b@.page == 0, b@.forbidden.len() >= 0, b@.target == 0, b@.report.send_failures == 0, b@.report.poster_skips == 0;
            }
            assert(batch_ok(b@));
            (b, PoolStep::Resolve(0))
        }
    }

    /// Move to the next page (or pause, or finish) with this tally.
    fn finish_page(&mut self, report: PoolBatchReport) -> (step: PoolStep)
        requires
            old(self)@.phase != PoolPhase::Finished,
            old(self)@.page < old(self)@.pages.len(),
            report.channels == old(self)@.forbidden.len(),
            report.published + report.unresolved <= old(self)@.page + 1,
            report.send_failures + report.poster_skips <= (old(self)@.page + 1) * (old(self)@.forbidden.len() as int),
            old(self)@.forbidden.len() > 0,
            old(self)@.pages.len() * old(self)@.forbidden.len() <= usize::MAX,
            old(self)@.chunk == chunk_for(old(self)@.pages.len() as int),
        ensures
            (final(self)@, step) == next_page(old(self)@, report),
            final(self).wf(),
    {
        assert(self@.pages.len() == self.page_tags@.len());
        let n = self.page_tags.len();
        let p = self.page + 1;
        let ghost m = self.target_forbidden.len() as int;
        proof {
            assert(p * m + 0 == p * m);
            assert(p * m <= (n as int) * m) by (nonlinear_arith) requires p <= n, m >= 0;
        }
        if p == n {
            self.page = p;
            self.target = 0;
            self.delivered = false;
            self.phase = PoolPhase::Finished;
            self.report = report;
            PoolStep::Done
        } else if p % self.chunk == 0 {
            self.page = p;
            self.target = 0;
            self.delivered = false;
            self.phase = PoolPhase::Pausing;
            self.report = report;
            PoolStep::Pause
        } else {
            self.page = p;
            self.target = 0;
            self.delivered = false;
            self.phase = PoolPhase::Resolving;
            self.report = report;
            PoolStep::Resolve(p)
        }
    }
    /// Walk the targets from the current one: skip (and count) those whose
    /// forbidden tags hit the page; send to the first other one; with none
    /// left, finish the page.
    fn advance(&mut self) -> (step: PoolStep)
        requires
            core_ok(old(self)@),
            old(self)@.page < old(self)@.pages.len(),
            old(self)@.phase != PoolPhase::Finished,
            old(self)@.forbidden.len() > 0,
        ensures
            (final(self)@, step) == advance_spec(old(self)@),
            final(self).wf(),
    {
        let ghost v = self@;
        let ghost pred = skips_at(v);
        let m = self.target_forbidden.len();
        assert(self@.pages.len() == self.page_tags@.len());
        let mut j = self.target;
        let mut stop = false;
        while !stop && j < m
            invariant
                v.target <= j <= m,
                m == v.forbidden.len(),
                self@ == v,
                pred == skips_at(v),
                0 <= v.page < v.pages.len(),
                v.pages.len() == self.page_tags@.len(),
                m == self.target_forbidden@.len(),
                stop ==> j < m && pred(j as int),
                forall|q: int| v.target <= q < j ==> !#[trigger] pred(q),
            decreases m - j + (if stop { 0int } else { 1int }),
        {
            let skip = carries_forbidden(&self.page_tags[self.page], &self.target_forbidden[j]);
            assert(nested_views(self.page_tags@)[v.page] == views(self.page_tags@[v.page]@));
            assert(nested_views(self.target_forbidden@)[j as int] == views(self.target_forbidden@[j as int]@));
            if !skip {
                assert(pred(j as int));
                stop = true;
            } else {
                j = j + 1;
            }
        }
        proof {
            lemma_first_idx_is(v.target, j as int, m as int, pred);
        }
        let ghost n = v.pages.len() as int;
        let ghost mm = m as int;
        proof {
            assert(v.page * mm + j <= (v.page + 1) * mm) by (nonlinear_arith) requires j <= mm, v.page >= 0;
            assert((v.page + 1) * mm <= n * mm) by (nonlinear_arith) requires v.page < n, mm >= 0;
        }
        let skipped = j - self.target;
        let report = PoolBatchReport { poster_skips: self.report.poster_skips + skipped, ..self.report };
        if j < m {
            self.target = j;
            self.phase = PoolPhase::Sending;
            self.report = report;
            PoolStep::Send { page: self.page, target: j }
        } else {
            let published = if self.delivered { report.published + 1 } else { report.published };
            self.finish_page(PoolBatchReport { published, ..report })
        }
    }

    /// What resolving the current page's media came to.
    pub fn on_resolved(&mut self, outcome: ResolveOutcome) -> (step: PoolStep)
        requires
            old(self).wf(),
            old(self)@.phase == PoolPhase::Resolving,
        ensures
            (final(self)@, step) == on_resolved_spec(old(self)@, outcome),
            final(self).wf(),
    {
        match outcome {
            ResolveOutcome::Resolved => {
                self.target = 0;
                self.delivered = false;
                self.advance()
            },
            ResolveOutcome::Gone => {
                self.phase = PoolPhase::Marking;
                PoolStep::MarkGone(self.page)
            },
            ResolveOutcome::Failed => self.skip_unresolved(),
        }
    }

    /// The gone page has been marked MediaGone.
    pub fn on_marked(&mut self) -> (step: PoolStep)
        requires
            old(self).wf(),
            old(self)@.phase == PoolPhase::Marking,
        ensures
            (final(self)@, step) == on_marked_spec(old(self)@),
            final(self).wf(),
    {
        self.skip_unresolved()
    }

    /// Count the current page as unresolved and move on.
    fn skip_unresolved(&mut self) -> (step: PoolStep)
        requires
            old(self).wf(),
            old(self)@.phase == PoolPhase::Resolving || old(self)@.phase == PoolPhase::Marking,
        ensures
            (final(self)@, step) == on_marked_spec(old(self)@),
            final(self).wf(),
    {
        assert(self@.pages.len() == self.page_tags@.len());
        let ghost mm = self@.forbidden.len() as int;
        proof {
            assert(self@.page * mm + 0 <= (self@.page + 1) * mm) by (nonlinear_arith) requires mm >= 0, self@.page >= 0;
        }
        let report = PoolBatchReport { unresolved: self.report.unresolved + 1, ..self.report };
        self.finish_page(report)
    }

    /// The current send went through (`ok`) or was refused.
    pub fn on_sent(&mut self, ok: bool) -> (step: PoolStep)
        requires
            old(self).wf(),
            old(self)@.phase == PoolPhase::Sending,
        ensures
            (final(self)@, step) == on_sent_spec(old(self)@, ok),
            final(self).wf(),
    {
        let ghost mm = self@.forbidden.len() as int;
        proof {
            assert(self@.page * mm + self@.target + 1 <= (self@.page + 1) * mm) by (nonlinear_arith)
                requires self@.target < mm, self@.page >= 0;
            assert((self@.page + 1) * mm <= (self@.pages.len() as int) * mm) by (nonlinear_arith)
                requires self@.page < self@.pages.len(), mm >= 0;
        }
        if !ok {
            let report = PoolBatchReport { send_failures: self.report.send_failures + 1, ..self.report };
            self.report = report;
        }
        self.delivered = self.delivered || ok;
        self.target = self.target + 1;
        self.advance()
    }

    /// The pause between groups is over.
    pub fn on_paused(&mut self) -> (step: PoolStep)
        requires
            old(self).wf(),
            old(self)@.phase == PoolPhase::Pausing,
        ensures
            final(self)@ == (PoolBatchView { phase: PoolPhase::Resolving, ..old(self)@ }),
            step == PoolStep::Resolve(old(self)@.page as usize),
            final(self).wf(),
    {
        self.phase = PoolPhase::Resolving;
        PoolStep::Resolve(self.page)
    }
}

/// Pages go out in pool order: a step only ever resolves the page after
/// the one just handled, and the batch is done exactly when every page has
/// been handled.
pub proof fn lemma_pages_in_order(v: PoolBatchView, report: PoolBatchReport)
    ensures
        ({
            let (w, step) = next_page(v, report);
            &&& w.page == v.page + 1
            &&& (step == PoolStep::Done <==> w.page == v.pages.len())
            &&& step is Resolve ==> step == PoolStep::Resolve((v.page + 1) as usize)
        }),
{
}

// ------------------------------------------------------------ replies ----

/// What staging left out, as the moderator reads it (empty when nothing).
pub open spec fn skipped_text(already: usize, forbidden: usize, missing: usize) -> Seq<char> {
    let parts = (if already > 0 { seq![decimal(already as nat) + " already curated"@] } else { Seq::<Seq<char>>::empty() })
        + (if forbidden > 0 { seq![decimal(forbidden as nat) + " forbidden"@] } else { Seq::<Seq<char>>::empty() })
        + (if missing > 0 { seq![decimal(missing as nat) + " gone upstream"@] } else { Seq::<Seq<char>>::empty() });
    if parts.len() == 0 { ""@ } else { " Skipped: "@ + join(parts, ", "@) + "."@ }
}

/// How the pages will go out.
pub open spec fn pace_text(pages: usize) -> Seq<char> {
    if pages > POOL_BURST_MAX {
        " in groups of "@ + decimal(POOL_CHUNK_SIZE as nat) + " every "@ + decimal(POOL_CHUNK_PAUSE_SECS as nat) + "s"@
    } else {
        " all at once"@
    }
}

/// The moderator's notice once a pool is staged.
pub open spec fn pool_start_spec(name: Seq<char>, pages: usize, already: usize, forbidden: usize, missing: usize) -> Seq<char> {
    if pages == 0 {
        "📚 Pool \""@ + name + "\": nothing new to publish."@ + skipped_text(already, forbidden, missing)
    } else {
        "📚 Pool \""@ + name + "\": publishing "@ + decimal(pages as nat) + " page(s)"@ + pace_text(pages)
            + " to every channel this post matches."@ + skipped_text(already, forbidden, missing)
    }
}

/// The moderator's summary once the batch is over.
pub open spec fn pool_done_spec(name: Seq<char>, pages: usize, r: PoolBatchReport) -> Seq<char> {
    (if r.channels == 0 {
        "📚 Pool \""@ + name + "\": no poster's subscription matches the reviewed post, so nothing was published. The pages stay curated."@
    } else {
        "📚 Pool \""@ + name + "\" done: "@ + decimal(r.published as nat) + "/"@ + decimal(pages as nat) + " page(s) published to "@
            + decimal(r.channels as nat) + " channel(s)."@
    }) + (if r.unresolved > 0 { " "@ + decimal(r.unresolved as nat) + " page(s) had dead media."@ } else { ""@ })
        + (if r.send_failures > 0 { " "@ + decimal(r.send_failures as nat) + " send(s) failed."@ } else { ""@ })
        + (if r.poster_skips > 0 { " "@ + decimal(r.poster_skips as nat) + " page-channel skip(s) from channel tag policy."@ } else { ""@ })
}

fn push_skipped(s: &mut String, already: usize, forbidden: usize, missing: usize)
    ensures
        final(s)@ == old(s)@ + skipped_text(already, forbidden, missing),
{
    let mut parts: Vec<String> = Vec::new();
    if already > 0 {
        let mut p = String::new();
        push_decimal(&mut p, already as u64);
        push_str(&mut p, " already curated");
        parts.push(p);
    }
    if forbidden > 0 {
        let mut p = String::new();
        push_decimal(&mut p, forbidden as u64);
        push_str(&mut p, " forbidden");
        parts.push(p);
    }
    if missing > 0 {
        let mut p = String::new();
        push_decimal(&mut p, missing as u64);
        push_str(&mut p, " gone upstream");
        parts.push(p);
    }
    let ghost want = (if already > 0 { seq![decimal(already as nat) + " already curated"@] } else { Seq::<Seq<char>>::empty() })
        + (if forbidden > 0 { seq![decimal(forbidden as nat) + " forbidden"@] } else { Seq::<Seq<char>>::empty() })
        + (if missing > 0 { seq![decimal(missing as nat) + " gone upstream"@] } else { Seq::<Seq<char>>::empty() });
    assert(views(parts@) =~= want);
    let ghost before = s@;
    if parts.len() > 0 {
        push_str(s, " Skipped: ");
        let joined = join_with(&parts, ", ");
        push_str(s, joined.as_str());
        push_str(s, ".");
    } else {
        proof {
            reveal_strlit("");
        }
        assert(s@ =~= before + ""@);
    }
}

fn push_optional(s: &mut String, n: usize, what: &str)
    ensures
        final(s)@ == old(s)@ + (if n > 0 { " "@ + decimal(n as nat) + what@ } else { ""@ }),
{
    if n > 0 {
        push_str(s, " ");
        push_decimal(s, n as u64);
        push_str(s, what);
    } else {
        proof {
            reveal_strlit("");
        }
        assert(s@ =~= old(s)@ + ""@);
    }
}

/// The moderator's notice once a pool named `name` is staged with `pages`
/// pages to publish.
pub fn pool_start_text(name: &str, pages: usize, already: usize, forbidden: usize, missing: usize) -> (s: String)
    ensures
        s@ == pool_start_spec(name@, pages, already, forbidden, missing),
{
    let mut s = String::new();
    push_str(&mut s, "📚 Pool \"");
    push_str(&mut s, name);
    if pages == 0 {
        push_str(&mut s, "\": nothing new to publish.");
    } else {
        push_str(&mut s, "\": publishing ");
        push_decimal(&mut s, pages as u64);
        push_str(&mut s, " page(s)");
        if pages > POOL_BURST_MAX {
            push_str(&mut s, " in groups of ");
            push_decimal(&mut s, POOL_CHUNK_SIZE as u64);
            push_str(&mut s, " every ");
            push_decimal(&mut s, POOL_CHUNK_PAUSE_SECS);
            push_str(&mut s, "s");
        } else {
            push_str(&mut s, " all at once");
        }
        push_str(&mut s, " to every channel this post matches.");
    }
    push_skipped(&mut s, already, forbidden, missing);
    s
}

/// The moderator's summary once the batch over `pages` pages is over.
pub fn pool_done_text(name: &str, pages: usize, report: &PoolBatchReport) -> (s: String)
    ensures
        s@ == pool_done_spec(name@, pages, *report),
{
    let mut s = String::new();
    push_str(&mut s, "📚 Pool \"");
    push_str(&mut s, name);
    if report.channels == 0 {
        push_str(&mut s, "\": no poster's subscription matches the reviewed post, so nothing was published. The pages stay curated.");
    } else {
        push_str(&mut s, "\" done: ");
        push_decimal(&mut s, report.published as u64);
        push_str(&mut s, "/");
        push_decimal(&mut s, pages as u64);
        push_str(&mut s, " page(s) published to ");
        push_decimal(&mut s, report.channels as u64);
        push_str(&mut s, " channel(s).");
    }
    push_optional(&mut s, report.unresolved, " page(s) had dead media.");
    push_optional(&mut s, report.send_failures, " send(s) failed.");
    push_optional(&mut s, report.poster_skips, " page-channel skip(s) from channel tag policy.");
    s
}

} // verus!
