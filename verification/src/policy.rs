//! Moderation state kept beside the feed: viewer reports, shadowbans, the
//! browse skiplist, the "fulfilling request" toggle, the tag policies and
//! the scoreboard cadence.

use vstd::prelude::*;
use vstd::std_specs::hash::group_hash_axioms;
use std::collections::{HashMap, HashSet};
use crate::post::PostId;
use crate::text::{chars_of, clone_opt_string, lemma_seq_lt_total, lemma_seq_lt_transitive, seq_lt, views};
use crate::user::TelegramId;

verus! {

broadcast use group_hash_axioms;

// ------------------------------------------------------------- reports ----

/// A viewer's report of a published post. `reported_at` in milliseconds
/// since the Unix epoch; `reason` is `None` only where none could be asked.
#[derive(Debug)]
pub struct Report {
    pub post_id: PostId,
    /// Reporters need not be registered users.
    pub reporter: TelegramId,
    pub reported_at: i64,
    pub reason: Option<String>,
}

pub fn copy_report(r: &Report) -> (c: Report)
    ensures
        c == *r,
{
    Report { post_id: r.post_id, reporter: r.reporter, reported_at: r.reported_at, reason: clone_opt_string(&r.reason) }
}

#[derive(Debug)]
pub enum ReportRepositoryError {
    Storage(String),
}

/// How many reports of `rs` concern `post`.
pub open spec fn count_for_spec(rs: Seq<Report>, post: PostId) -> nat
    decreases rs.len(),
{
    if rs.len() == 0 {
        0
    } else {
        count_for_spec(rs.drop_last(), post) + if rs.last().post_id == post { 1nat } else { 0nat }
    }
}

/// The reports of `rs` about `post`, in order.
pub open spec fn reports_about(rs: Seq<Report>, post: PostId) -> Seq<Report>
    decreases rs.len(),
{
    if rs.len() == 0 {
        seq![]
    } else {
        let prev = reports_about(rs.drop_last(), post);
        if rs.last().post_id == post { prev.push(rs.last()) } else { prev }
    }
}

/// The reports of `rs` not about `post`, in order.
pub open spec fn reports_not_about(rs: Seq<Report>, post: PostId) -> Seq<Report>
    decreases rs.len(),
{
    if rs.len() == 0 {
        seq![]
    } else {
        let prev = reports_not_about(rs.drop_last(), post);
        if rs.last().post_id != post { prev.push(rs.last()) } else { prev }
    }
}

pub open spec fn is_older(rs: Seq<Report>, x: Report) -> spec_fn(int) -> bool {
    |k: int| rs[k].reported_at < x.reported_at
}

/// `x` placed into the newest-first list `rs`: after every report at least
/// as recent, before the older ones.
pub open spec fn insert_newest_first(rs: Seq<Report>, x: Report) -> Seq<Report> {
    rs.insert(crate::text::first_idx(0, rs.len() as int, is_older(rs, x)), x)
}

/// The reports newest first; equally recent ones keep their filing order.
pub open spec fn newest_first(rs: Seq<Report>) -> Seq<Report>
    decreases rs.len(),
{
    if rs.len() == 0 {
        seq![]
    } else {
        insert_newest_first(newest_first(rs.drop_last()), rs.last())
    }
}

/// The in-memory report store; `(post, reporter)` is the dedupe key.
pub struct InMemoryReportRepository {
    reports: Vec<Report>,
}

impl View for InMemoryReportRepository {
    type V = Seq<Report>;

    closed spec fn view(&self) -> Seq<Report> {
        self.reports@
    }
}

impl InMemoryReportRepository {
    pub fn new() -> (r: Self)
        ensures
            r@ == Seq::<Report>::empty(),
    {
        InMemoryReportRepository { reports: Vec::new() }
    }

    /// Record a report. Returns `false`, storing nothing, when this reporter
    /// already reported this post.
    pub fn add(&mut self, report: Report) -> (fresh: bool)
        ensures
            fresh == !(exists|i: int| 0 <= i < old(self)@.len()
                && old(self)@[i].post_id == report.post_id && old(self)@[i].reporter == report.reporter),
            fresh ==> final(self)@ == old(self)@.push(report),
            !fresh ==> final(self)@ == old(self)@,
    {
        let mut k: usize = 0;
        while k < self.reports.len()
            invariant
                k <= self.reports.len(),
                forall|i: int| 0 <= i < k ==> !(self@[i].post_id == report.post_id && self@[i].reporter == report.reporter),
            decreases self.reports.len() - k,
        {
            if self.reports[k].post_id == report.post_id && self.reports[k].reporter == report.reporter {
                assert(self@[k as int].post_id == report.post_id && self@[k as int].reporter == report.reporter);
                return false;
            }
            k = k + 1;
        }
        self.reports.push(report);
        true
    }

    /// How many reports a post has.
    pub fn count_for(&self, post_id: PostId) -> (n: u64)
        ensures
            n == count_for_spec(self@, post_id),
    {
        let mut n: u64 = 0;
        let mut k: usize = 0;
        while k < self.reports.len()
            invariant
                k <= self.reports.len(),
                n == count_for_spec(self@.take(k as int), post_id),
                n <= k,
            decreases self.reports.len() - k,
        {
            assert(self@.take(k + 1).drop_last() =~= self@.take(k as int));
            if self.reports[k].post_id == post_id {
                n = n + 1;
            }
            k = k + 1;
        }
        assert(self@.take(self.reports.len() as int) =~= self@);
        n
    }

    /// Every report, newest first (equally recent ones in filing order).
    pub fn list_all(&self) -> (r: Vec<Report>)
        ensures
            r@ == newest_first(self@),
    {
        let mut r: Vec<Report> = Vec::new();
        let mut k: usize = 0;
        while k < self.reports.len()
            invariant
                k <= self.reports.len(),
                r@ == newest_first(self@.take(k as int)),
            decreases self.reports.len() - k,
        {
            assert(self@.take(k + 1).drop_last() =~= self@.take(k as int));
            let x = &self.reports[k];
            let ghost pred = is_older(r@, *x);
            let mut pos: usize = 0;
            while pos < r.len() && !(r[pos].reported_at < x.reported_at)
                invariant
                    pos <= r.len(),
                    pred == is_older(r@, *x),
                    forall|q: int| 0 <= q < pos ==> !#[trigger] pred(q),
                decreases r.len() - pos,
            {
                pos = pos + 1;
            }
            proof {
                crate::text::lemma_first_idx_is(0, pos as int, r@.len() as int, pred);
            }
            r.insert(pos, copy_report(x));
            k = k + 1;
        }
        assert(self@.take(self.reports.len() as int) =~= self@);
        r
    }

    /// Clear a post's reports (moderator dismissal).
    pub fn clear_for(&mut self, post_id: PostId)
        ensures
            final(self)@ == reports_not_about(old(self)@, post_id),
    {
        let mut kept: Vec<Report> = Vec::new();
        let mut k: usize = 0;
        while k < self.reports.len()
            invariant
                k <= self.reports.len(),
                kept@ == reports_not_about(self@.take(k as int), post_id),
            decreases self.reports.len() - k,
        {
            assert(self@.take(k + 1).drop_last() =~= self@.take(k as int));
            if self.reports[k].post_id != post_id {
                kept.push(copy_report(&self.reports[k]));
            }
            k = k + 1;
        }
        assert(self@.take(self.reports.len() as int) =~= self@);
        self.reports = kept;
    }
}

// ---------------------------------------------------------- shadowbans ----

#[derive(Debug)]
pub enum ShadowBanRepositoryError {
    Storage(String),
}

/// The shadowbanned Telegram ids.
pub struct InMemoryShadowBanRepository {
    banned: HashSet<i64>,
}

impl View for InMemoryShadowBanRepository {
    type V = Set<i64>;

    closed spec fn view(&self) -> Set<i64> {
        self.banned@
    }
}

impl InMemoryShadowBanRepository {
    pub fn new() -> (r: Self)
        ensures
            r@ == Set::<i64>::empty(),
    {
        InMemoryShadowBanRepository { banned: HashSet::new() }
    }

    /// Shadowban an id (`by`, `at`: who did it, when). Idempotent.
    pub fn set(&mut self, who: TelegramId, by: TelegramId, at: i64)
        ensures
            final(self)@ == old(self)@.insert(who.0),
    {
        self.banned.insert(who.0);
    }

    /// Lift a shadowban. Idempotent.
    pub fn lift(&mut self, who: TelegramId)
        ensures
            final(self)@ == old(self)@.remove(who.0),
    {
        self.banned.remove(&who.0);
    }

    pub fn contains(&self, who: TelegramId) -> (b: bool)
        ensures
            b == self@.contains(who.0),
    {
        self.banned.contains(&who.0)
    }
}

// ------------------------------------------------------------ skiplist ----

#[derive(Debug)]
pub enum SkipListRepositoryError {
    Storage(String),
}

/// A set of strings kept as a list without repeats.
pub struct StringSet {
    items: Vec<String>,
}

impl View for StringSet {
    type V = Set<Seq<char>>;

    closed spec fn view(&self) -> Set<Seq<char>> {
        views(self.items@).to_set()
    }
}

impl StringSet {
    pub fn new() -> (r: Self)
        ensures
            r@ == Set::<Seq<char>>::empty(),
    {
        let r = StringSet { items: Vec::new() };
        assert(views(r.items@).to_set() =~= Set::<Seq<char>>::empty());
        r
    }

    /// Index of `s` in the list.
    fn index_of(&self, s: &str) -> (r: Option<usize>)
        ensures
            match r {
                Some(i) => i < self.items@.len() && self.items@[i as int]@ == s@ && self@.contains(s@),
                None => !self@.contains(s@),
            },
    {
        let mut k: usize = 0;
        while k < self.items.len()
            invariant
                k <= self.items.len(),
                forall|i: int| 0 <= i < k ==> self.items@[i]@ != s@,
            decreases self.items.len() - k,
        {
            if crate::text::str_eq(self.items[k].as_str(), s) {
                assert(views(self.items@)[k as int] == s@);
                assert(views(self.items@).contains(s@));
                return Some(k);
            }
            k = k + 1;
        }
        proof {
            if views(self.items@).to_set().contains(s@) {
                assert(views(self.items@).contains(s@));
                let i = choose|i: int| 0 <= i < views(self.items@).len() && views(self.items@)[i] == s@;
                assert(self.items@[i]@ == s@);
            }
        }
        None
    }

    pub fn insert(&mut self, s: &str)
        ensures
            final(self)@ == old(self)@.insert(s@),
    {
        match self.index_of(s) {
            Some(i) => {
                proof {
                    assert(views(self.items@)[i as int] == s@);
                    assert(self@.contains(s@));
                    assert(self@.insert(s@) =~= self@);
                }
            },
            None => {
                let ghost before = self.items@;
                self.items.push(s.to_owned());
                proof {
                    assert(views(self.items@) =~= views(before).push(s@));
                    assert(views(self.items@).to_set() =~= views(before).to_set().insert(s@)) by {
                        assert forall|x: Seq<char>| views(self.items@).to_set().contains(x) <==> views(before).to_set().insert(s@).contains(x) by {
                            if views(before).contains(x) {
                                let i = choose|i: int| 0 <= i < views(before).len() && views(before)[i] == x;
                                assert(views(self.items@)[i] == x);
                            }
                            if views(self.items@).contains(x) {
                                let i = choose|i: int| 0 <= i < views(self.items@).len() && views(self.items@)[i] == x;
                                if i < before.len() {
                                    assert(views(before)[i] == x);
                                }
                            }
                            if x == s@ {
                                assert(views(self.items@)[before.len() as int] == x);
                            }
                        }
                    }
                }
            },
        }
    }

    #[verifier::rlimit(40)]
    #[verifier::spinoff_prover]
    pub fn remove(&mut self, s: &str)
        ensures
            final(self)@ == old(self)@.remove(s@),
    {
        let mut kept: Vec<String> = Vec::new();
        let ghost all = self.items@;
        let mut k: usize = 0;
        while k < self.items.len()
            invariant
                k <= self.items.len(),
                all == self.items@,
                forall|i: int| 0 <= i < kept@.len() ==> (#[trigger] kept@[i])@ != s@
                    && exists|j: int| 0 <= j < k && all[j]@ == kept@[i]@,
                forall|j: int| 0 <= j < k && (#[trigger] all[j])@ != s@ ==>
                    exists|i: int| 0 <= i < kept@.len() && kept@[i]@ == all[j]@,
            decreases self.items.len() - k,
        {
            let ghost before = kept@;
            if !crate::text::str_eq(self.items[k].as_str(), s) {
                kept.push(self.items[k].clone());
                proof {
                    assert forall|i: int| 0 <= i < kept@.len() implies (#[trigger] kept@[i])@ != s@
                        && exists|j: int| 0 <= j < k + 1 && all[j]@ == kept@[i]@ by {
                        if i < before.len() {
                            assert(kept@[i] == before[i]);
                            let j = choose|j: int| 0 <= j < k && all[j]@ == before[i]@;
                            assert(all[j]@ == kept@[i]@);
                        } else {
                            assert(all[k as int]@ == kept@[i]@);
                        }
                    }
                    assert forall|j: int| 0 <= j < k + 1 && (#[trigger] all[j])@ != s@ implies
                        exists|i: int| 0 <= i < kept@.len() && kept@[i]@ == all[j]@ by {
                        if j < k {
                            let i = choose|i: int| 0 <= i < before.len() && before[i]@ == all[j]@;
                            assert(kept@[i] == before[i]);
                        } else {
                            assert(kept@[before.len() as int]@ == all[j]@);
                        }
                    }
                }
            }
            k = k + 1;
        }
        proof {
            let now = views(kept@).to_set();
            let was = views(all).to_set();
            assert forall|x: Seq<char>| now.contains(x) <==> was.remove(s@).contains(x) by {
                if now.contains(x) {
                    let i = choose|i: int| 0 <= i < views(kept@).len() && views(kept@)[i] == x;
                    assert(kept@[i]@ == x);
                    let j = choose|j: int| 0 <= j < all.len() && all[j]@ == kept@[i]@;
                    assert(views(all)[j] == x);
                }
                if was.remove(s@).contains(x) {
                    let j = choose|j: int| 0 <= j < views(all).len() && views(all)[j] == x;
                    assert(all[j]@ == x);
                    let i = choose|i: int| 0 <= i < kept@.len() && kept@[i]@ == all[j]@;
                    assert(views(kept@)[i] == x);
                }
            }
            assert(now =~= was.remove(s@));
        }
        self.items = kept;
    }

    pub fn contains(&self, s: &str) -> (b: bool)
        ensures
            b == self@.contains(s@),
    {
        self.index_of(s).is_some()
    }

    /// The members, in the order they were first added.
    pub fn list(&self) -> (r: Vec<String>)
        ensures
            views(r@).to_set() == self@,
    {
        crate::text::clone_strings(&self.items)
    }
}

/// The browse skiplist: sources a moderator waved off.
pub struct InMemorySkipListRepository {
    sources: StringSet,
}

impl View for InMemorySkipListRepository {
    type V = Set<Seq<char>>;

    closed spec fn view(&self) -> Set<Seq<char>> {
        self.sources@
    }
}

impl InMemorySkipListRepository {
    pub fn new() -> (r: Self)
        ensures
            r@ == Set::<Seq<char>>::empty(),
    {
        InMemorySkipListRepository { sources: StringSet::new() }
    }

    /// Remember a source as skipped (`by`, `at`: who, when). Idempotent.
    pub fn add(&mut self, source: &str, by: TelegramId, at: i64)
        ensures
            final(self)@ == old(self)@.insert(source@),
    {
        self.sources.insert(source);
    }

    pub fn contains(&self, source: &str) -> (b: bool)
        ensures
            b == self@.contains(source@),
    {
        self.sources.contains(source)
    }
}

// ---------------------------------------------------------- fulfilling ----

#[derive(Debug)]
pub enum FulfillingRequestRepositoryError {
    Storage(String),
}

/// The per-curator "fulfilling request" toggle: a curator's request text
/// while the toggle is on.
pub struct InMemoryFulfillingRequestRepository {
    requests: HashMap<i64, String>,
}

impl View for InMemoryFulfillingRequestRepository {
    type V = Map<i64, String>;

    closed spec fn view(&self) -> Map<i64, String> {
        self.requests@
    }
}

impl InMemoryFulfillingRequestRepository {
    pub fn new() -> (r: Self)
        ensures
            r@ == Map::<i64, String>::empty(),
    {
        InMemoryFulfillingRequestRepository { requests: HashMap::new() }
    }

    /// Turn the toggle on with this request text, replacing any previous.
    pub fn set(&mut self, curator: TelegramId, request: &str, at: i64)
        ensures
            final(self)@.dom() == old(self)@.dom().insert(curator.0),
            final(self)@[curator.0]@ == request@,
            forall|c: i64| c != curator.0 && old(self)@.contains_key(c) ==> final(self)@[c] == old(self)@[c],
    {
        self.requests.insert(curator.0, request.to_owned());
    }

    /// Turn the toggle off. Idempotent.
    pub fn clear(&mut self, curator: TelegramId)
        ensures
            final(self)@ == old(self)@.remove(curator.0),
    {
        self.requests.remove(&curator.0);
    }

    /// The active request text, if the curator's toggle is on.
    pub fn active(&self, curator: TelegramId) -> (r: Option<String>)
        ensures
            match r {
                Some(t) => self@.contains_key(curator.0) && t == self@[curator.0],
                None => !self@.contains_key(curator.0),
            },
    {
        match self.requests.get(&curator.0) {
            Some(t) => Some(t.clone()),
            None => None,
        }
    }
}

// --------------------------------------------------------- tag policy ----

#[derive(Debug)]
pub enum TagPolicyRepositoryError {
    Storage(String),
}

/// Tags whose entries go behind the spoiler blur.
pub struct InMemorySpoilerTagRepository {
    tags: StringSet,
}

impl View for InMemorySpoilerTagRepository {
    type V = Set<Seq<char>>;

    closed spec fn view(&self) -> Set<Seq<char>> {
        self.tags@
    }
}

impl InMemorySpoilerTagRepository {
    pub fn new() -> (r: Self)
        ensures
            r@ == Set::<Seq<char>>::empty(),
    {
        InMemorySpoilerTagRepository { tags: StringSet::new() }
    }

    pub fn add(&mut self, tag: &str)
        ensures
            final(self)@ == old(self)@.insert(tag@),
    {
        self.tags.insert(tag);
    }

    pub fn remove(&mut self, tag: &str)
        ensures
            final(self)@ == old(self)@.remove(tag@),
    {
        self.tags.remove(tag);
    }

    pub fn contains(&self, tag: &str) -> (b: bool)
        ensures
            b == self@.contains(tag@),
    {
        self.tags.contains(tag)
    }

    pub fn list_all(&self) -> (r: Vec<String>)
        ensures
            views(r@).to_set() == self@,
    {
        self.tags.list()
    }
}

/// Tags every submission must carry.
pub struct InMemoryRequiredTagRepository {
    tags: StringSet,
}

impl View for InMemoryRequiredTagRepository {
    type V = Set<Seq<char>>;

    closed spec fn view(&self) -> Set<Seq<char>> {
        self.tags@
    }
}

impl InMemoryRequiredTagRepository {
    pub fn new() -> (r: Self)
        ensures
            r@ == Set::<Seq<char>>::empty(),
    {
        InMemoryRequiredTagRepository { tags: StringSet::new() }
    }

    pub fn add(&mut self, tag: &str)
        ensures
            final(self)@ == old(self)@.insert(tag@),
    {
        self.tags.insert(tag);
    }

    pub fn remove(&mut self, tag: &str)
        ensures
            final(self)@ == old(self)@.remove(tag@),
    {
        self.tags.remove(tag);
    }

    pub fn contains(&self, tag: &str) -> (b: bool)
        ensures
            b == self@.contains(tag@),
    {
        self.tags.contains(tag)
    }

    pub fn list_all(&self) -> (r: Vec<String>)
        ensures
            views(r@).to_set() == self@,
    {
        self.tags.list()
    }
}

// ---------------------------------------------------------- scoreboard ----

/// The scoreboard cycle: recurrence in hours (0 = off) and when the last
/// round went out (milliseconds since the Unix epoch).
#[derive(Debug, Clone, Copy, PartialEq, Eq, Structural)]
pub struct ScoreboardSettings {
    pub interval_hours: u32,
    pub last_posted_at: Option<i64>,
}

pub const MILLIS_PER_HOUR: i64 = 3_600_000;

pub open spec fn due_spec(s: ScoreboardSettings, now: i64) -> bool {
    s.interval_hours != 0 && match s.last_posted_at {
        None => true,
        Some(last) => now - last >= s.interval_hours * MILLIS_PER_HOUR,
    }
}

impl ScoreboardSettings {
    pub fn disabled() -> (s: ScoreboardSettings)
        ensures
            s == (ScoreboardSettings { interval_hours: 0, last_posted_at: None }),
    {
        ScoreboardSettings { interval_hours: 0, last_posted_at: None }
    }

    /// Whether a new round is due at `now`: never when disabled, at once
    /// when none went out yet, else once the interval has passed.
    pub fn due(&self, now: i64) -> (b: bool)
        ensures
            b == due_spec(*self, now),
    {
        if self.interval_hours == 0 {
            return false;
        }
        match self.last_posted_at {
            None => true,
            Some(last) => {
                let elapsed: i128 = now as i128 - last as i128;
                assert(self.interval_hours as i128 * 3_600_000i128 <= 0xffff_ffff * 3_600_000i128) by (nonlinear_arith)
                    requires self.interval_hours <= 0xffff_ffff;
                let needed: i128 = self.interval_hours as i128 * MILLIS_PER_HOUR as i128;
                elapsed >= needed
            },
        }
    }
}

#[derive(Debug)]
pub enum ScoreboardRepositoryError {
    Storage(String),
}

/// Globally forbidden tags with an optional reason, listed in tag order.
pub struct InMemoryForbiddenTagRepository {
    entries: Vec<(String, Option<String>)>,
}

pub open spec fn entry_names(es: Seq<(String, Option<String>)>) -> Seq<Seq<char>> {
    es.map_values(|e: (String, Option<String>)| e.0@)
}

pub open spec fn strictly_sorted(names: Seq<Seq<char>>) -> bool {
    forall|i: int, j: int| 0 <= i < j < names.len() ==> seq_lt(#[trigger] names[i], #[trigger] names[j])
}

pub open spec fn reason_view(r: Option<String>) -> Option<Seq<char>> {
    match r {
        Some(s) => Some(s@),
        None => None,
    }
}

/// The entries as a map from tag to reason.
pub open spec fn entries_map(es: Seq<(String, Option<String>)>) -> Map<Seq<char>, Option<Seq<char>>> {
    Map::new(
        |k: Seq<char>| entry_names(es).contains(k),
        |k: Seq<char>| reason_view(es[entry_names(es).index_of(k)].1),
    )
}

impl View for InMemoryForbiddenTagRepository {
    type V = Map<Seq<char>, Option<Seq<char>>>;

    closed spec fn view(&self) -> Map<Seq<char>, Option<Seq<char>>> {
        entries_map(self.entries@)
    }
}

/// In a strictly sorted list every name occurs once.
proof fn lemma_sorted_unique(names: Seq<Seq<char>>, i: int)
    requires
        strictly_sorted(names),
        0 <= i < names.len(),
    ensures
        names.index_of(names[i]) == i,
{
    let k = names[i];
    assert(names.contains(k));
    let j = names.index_of(k);
    if j != i {
        if j < i {
            assert(seq_lt(names[j], names[i]));
        } else {
            assert(seq_lt(names[i], names[j]));
        }
        lemma_seq_lt_total(k, k);
    }
}

impl InMemoryForbiddenTagRepository {
    #[verifier::type_invariant]
    closed spec fn wf(self) -> bool {
        strictly_sorted(entry_names(self.entries@))
    }

    pub fn new() -> (r: Self)
        ensures
            r@ == Map::<Seq<char>, Option<Seq<char>>>::empty(),
    {
        let r = InMemoryForbiddenTagRepository { entries: Vec::new() };
        assert(entries_map(r.entries@) =~= Map::<Seq<char>, Option<Seq<char>>>::empty());
        r
    }

    /// Where `tag` sits (or would sit) in tag order, and whether it is
    /// there.
    fn position(&self, tag: &str) -> (r: (usize, bool))
        ensures
            r.0 <= self.entries@.len(),
            forall|i: int| 0 <= i < r.0 ==> seq_lt(#[trigger] entry_names(self.entries@)[i], tag@),
            r.1 ==> r.0 < self.entries@.len() && entry_names(self.entries@)[r.0 as int] == tag@,
            !r.1 ==> forall|i: int| r.0 <= i < self.entries@.len() ==> seq_lt(tag@, #[trigger] entry_names(self.entries@)[i]),
    {
        proof {
            use_type_invariant(self);
        }
        let ghost names = entry_names(self.entries@);
        let mut k: usize = 0;
        while k < self.entries.len() && crate::text::str_lt(self.entries[k].0.as_str(), tag)
            invariant
                k <= self.entries.len(),
                names == entry_names(self.entries@),
                strictly_sorted(names),
                forall|i: int| 0 <= i < k ==> seq_lt(#[trigger] names[i], tag@),
            decreases self.entries.len() - k,
        {
            k = k + 1;
        }
        if k < self.entries.len() {
            let hit = crate::text::str_eq(self.entries[k].0.as_str(), tag);
            proof {
                lemma_seq_lt_total(names[k as int], tag@);
                if !hit {
                    assert(seq_lt(tag@, names[k as int]));
                    assert forall|i: int| k <= i < self.entries@.len() implies seq_lt(tag@, #[trigger] names[i]) by {
                        if i > k {
                            assert(seq_lt(names[k as int], names[i]));
                            lemma_seq_lt_transitive(tag@, names[k as int], names[i]);
                        }
                    }
                }
            }
            (k, hit)
        } else {
            (k, false)
        }
    }

    /// Forbid a tag (or update its reason). Idempotent.
    pub fn add(&mut self, tag: &str, reason: Option<String>)
        ensures
            final(self)@ == old(self)@.insert(tag@, reason_view(reason)),
    {
        proof {
            use_type_invariant(&*self);
        }
        let (k, hit) = self.position(tag);
        let mut entries: Vec<(String, Option<String>)> = Vec::new();
        std::mem::swap(&mut entries, &mut self.entries);
        let ghost before = entries@;
        let ghost bn = entry_names(before);
        if hit {
            entries.set(k, (tag.to_owned(), reason));
        } else {
            entries.insert(k, (tag.to_owned(), reason));
        }
        proof {
            let now = entries@;
            let nn = entry_names(now);
            if hit {
                assert(nn =~= bn.update(k as int, tag@));
                assert(nn =~= bn);
            } else {
                assert(nn =~= bn.insert(k as int, tag@));
            }
            assert(strictly_sorted(nn)) by {
                assert forall|i: int, j: int| 0 <= i < j < nn.len() implies seq_lt(#[trigger] nn[i], #[trigger] nn[j]) by {
                    if hit {
                    } else {
                        if j < k {
                            assert(nn[i] == bn[i] && nn[j] == bn[j]);
                        } else if j == k {
                            assert(nn[i] == bn[i]);
                        } else if i < k {
                            assert(nn[i] == bn[i] && nn[j] == bn[j - 1]);
                            assert(seq_lt(bn[i], tag@));
                            assert(seq_lt(tag@, bn[j - 1]));
                            lemma_seq_lt_transitive(bn[i], tag@, bn[j - 1]);
                        } else if i == k {
                            assert(nn[j] == bn[j - 1]);
                        } else {
                            assert(nn[i] == bn[i - 1] && nn[j] == bn[j - 1]);
                        }
                    }
                }
            }
            let m = entries_map(now);
            let m0 = entries_map(before);
            assert forall|x: Seq<char>| #[trigger] m.dom().contains(x) <==> m0.insert(tag@, reason_view(reason)).dom().contains(x) by {
                if nn.contains(x) {
                    let i = nn.index_of(x);
                    if hit || i < k {
                        if i != k {
                            assert(bn[i] == x);
                        }
                    } else if i > k {
                        assert(bn[i - 1] == x);
                    }
                }
                if bn.contains(x) {
                    let i = bn.index_of(x);
                    if hit || i < k {
                        assert(nn[i] == x);
                    } else {
                        assert(nn[i + 1] == x);
                    }
                }
                if x == tag@ {
                    assert(nn[k as int] == x);
                }
            }
            assert forall|x: Seq<char>| #[trigger] m.dom().contains(x) implies m[x] == m0.insert(tag@, reason_view(reason))[x] by {
                let i = nn.index_of(x);
                lemma_sorted_unique(nn, i);
                if x == tag@ {
                    lemma_sorted_unique(nn, k as int);
                } else {
                    if hit || i < k {
                        assert(bn[i] == x);
                        lemma_sorted_unique(bn, i);
                        assert(now[i] == before[i]);
                    } else {
                        assert(bn[i - 1] == x);
                        lemma_sorted_unique(bn, i - 1);
                        assert(now[i] == before[i - 1]);
                    }
                }
            }
            assert(m =~= m0.insert(tag@, reason_view(reason)));
        }
        self.entries = entries;
    }

    /// Allow a tag again. Idempotent.
    pub fn remove(&mut self, tag: &str)
        ensures
            final(self)@ == old(self)@.remove(tag@),
    {
        proof {
            use_type_invariant(&*self);
        }
        let (k, hit) = self.position(tag);
        if !hit {
            proof {
                let bn = entry_names(self.entries@);
                assert(!bn.contains(tag@)) by {
                    if bn.contains(tag@) {
                        let i = bn.index_of(tag@);
                        if i < k {
                            assert(seq_lt(bn[i], tag@));
                        } else {
                            assert(seq_lt(tag@, bn[i]));
                        }
                        lemma_seq_lt_total(tag@, tag@);
                    }
                }
                assert(self@ =~= self@.remove(tag@));
            }
            return;
        }
        let mut entries: Vec<(String, Option<String>)> = Vec::new();
        std::mem::swap(&mut entries, &mut self.entries);
        let ghost before = entries@;
        let ghost bn = entry_names(before);
        entries.remove(k);
        proof {
            let now = entries@;
            let nn = entry_names(now);
            assert(nn =~= bn.remove(k as int));
            assert(strictly_sorted(nn)) by {
                assert forall|i: int, j: int| 0 <= i < j < nn.len() implies seq_lt(#[trigger] nn[i], #[trigger] nn[j]) by {
                    let i2 = if i < k { i } else { i + 1 };
                    let j2 = if j < k { j } else { j + 1 };
                    assert(nn[i] == bn[i2] && nn[j] == bn[j2]);
                }
            }
            let m = entries_map(now);
            let m0 = entries_map(before);
            assert forall|x: Seq<char>| #[trigger] m.dom().contains(x) <==> m0.remove(tag@).dom().contains(x) by {
                if nn.contains(x) {
                    let i = nn.index_of(x);
                    let i2 = if i < k { i } else { i + 1 };
                    assert(bn[i2] == x);
                    lemma_sorted_unique(bn, i2);
                    lemma_sorted_unique(bn, k as int);
                }
                if bn.contains(x) && x != tag@ {
                    let i = bn.index_of(x);
                    if i < k {
                        assert(nn[i] == x);
                    } else {
                        assert(i != k);
                        assert(nn[i - 1] == x);
                    }
                }
            }
            assert forall|x: Seq<char>| #[trigger] m.dom().contains(x) implies m[x] == m0.remove(tag@)[x] by {
                let i = nn.index_of(x);
                lemma_sorted_unique(nn, i);
                let i2 = if i < k { i } else { i + 1 };
                assert(bn[i2] == x);
                lemma_sorted_unique(bn, i2);
                assert(now[i] == before[i2]);
            }
            assert(m =~= m0.remove(tag@));
        }
        self.entries = entries;
    }

    pub fn contains(&self, tag: &str) -> (b: bool)
        ensures
            b == self@.dom().contains(tag@),
    {
        let (k, hit) = self.position(tag);
        proof {
            let bn = entry_names(self.entries@);
            if !hit && bn.contains(tag@) {
                let i = bn.index_of(tag@);
                if i < k {
                    assert(seq_lt(bn[i], tag@));
                } else {
                    assert(seq_lt(tag@, bn[i]));
                }
                lemma_seq_lt_total(tag@, tag@);
            }
        }
        hit
    }

    /// The reason a tag is forbidden, if it is and one was given.
    pub fn reason_for(&self, tag: &str) -> (r: Option<String>)
        ensures
            self@.dom().contains(tag@) ==> reason_view(r) == self@[tag@],
            !self@.dom().contains(tag@) ==> r is None,
    {
        proof {
            use_type_invariant(self);
        }
        let (k, hit) = self.position(tag);
        if hit {
            proof {
                lemma_sorted_unique(entry_names(self.entries@), k as int);
            }
            clone_opt_string(&self.entries[k].1)
        } else {
            proof {
                let bn = entry_names(self.entries@);
                if bn.contains(tag@) {
                    let i = bn.index_of(tag@);
                    if i < k {
                        assert(seq_lt(bn[i], tag@));
                    } else {
                        assert(seq_lt(tag@, bn[i]));
                    }
                    lemma_seq_lt_total(tag@, tag@);
                }
            }
            None
        }
    }

    /// Every forbidden tag, in tag order.
    pub fn list_all(&self) -> (r: Vec<String>)
        ensures
            strictly_sorted(views(r@)),
            views(r@).to_set() == self@.dom(),
    {
        proof {
            use_type_invariant(self);
        }
        let mut r: Vec<String> = Vec::new();
        let mut k: usize = 0;
        while k < self.entries.len()
            invariant
                k <= self.entries.len(),
                strictly_sorted(entry_names(self.entries@)),
                views(r@) == entry_names(self.entries@).take(k as int),
            decreases self.entries.len() - k,
        {
            let ghost before = r@;
            r.push(self.entries[k].0.clone());
            assert(views(r@) =~= views(before).push(entry_names(self.entries@)[k as int]));
            assert(entry_names(self.entries@).take(k + 1) =~= entry_names(self.entries@).take(k as int).push(entry_names(self.entries@)[k as int]));
            k = k + 1;
        }
        assert(entry_names(self.entries@).take(self.entries.len() as int) =~= entry_names(self.entries@));
        assert(views(r@).to_set() =~= self@.dom());
        r
    }

    /// Every forbidden tag with its reason, in tag order.
    pub fn list_with_reasons(&self) -> (r: Vec<(String, Option<String>)>)
        ensures
            entry_names(r@).to_set() == self@.dom(),
            strictly_sorted(entry_names(r@)),
            forall|i: int| 0 <= i < r@.len() ==> reason_view((#[trigger] r@[i]).1) == self@[r@[i].0@],
    {
        proof {
            use_type_invariant(self);
        }
        let mut r: Vec<(String, Option<String>)> = Vec::new();
        let mut k: usize = 0;
        while k < self.entries.len()
            invariant
                k <= self.entries.len(),
                strictly_sorted(entry_names(self.entries@)),
                r@.len() == k,
                forall|i: int| 0 <= i < k ==> (#[trigger] r@[i]).0@ == self.entries@[i].0@
                    && reason_view(r@[i].1) == reason_view(self.entries@[i].1),
            decreases self.entries.len() - k,
        {
            r.push((self.entries[k].0.clone(), clone_opt_string(&self.entries[k].1)));
            k = k + 1;
        }
        assert(entry_names(r@) =~= entry_names(self.entries@));
        assert(entry_names(r@).to_set() =~= self@.dom());
        proof {
            assert forall|i: int| 0 <= i < r@.len() implies reason_view((#[trigger] r@[i]).1) == self@[r@[i].0@] by {
                lemma_sorted_unique(entry_names(self.entries@), i);
            }
        }
        r
    }
}

// ---------------------------------------------------------------- laws ----

/// Reports dedupe per reporter: once `r` is filed, the same reporter's
/// next report of the same post finds it and is refused; the post's count
/// went up by exactly one.
pub proof fn lemma_report_once_per_reporter(rs: Seq<Report>, r: Report)
    ensures
        exists|i: int| 0 <= i < rs.push(r).len()
            && rs.push(r)[i].post_id == r.post_id && rs.push(r)[i].reporter == r.reporter,
        count_for_spec(rs.push(r), r.post_id) == count_for_spec(rs, r.post_id) + 1,
{
    assert(rs.push(r).drop_last() =~= rs);
    assert(rs.push(r)[rs.len() as int] == r);
}

/// Dismissing a post clears exactly its reports: none is left, so the
/// next report of it is fresh and notifies again, and every other post
/// keeps its count.
pub proof fn lemma_dismiss_clears(rs: Seq<Report>, post: PostId, other: PostId)
    ensures
        forall|i: int| 0 <= i < reports_not_about(rs, post).len() ==> (#[trigger] reports_not_about(rs, post)[i]).post_id != post,
        count_for_spec(reports_not_about(rs, post), post) == 0,
        other != post ==> count_for_spec(reports_not_about(rs, post), other) == count_for_spec(rs, other),
    decreases rs.len(),
{
    if rs.len() > 0 {
        lemma_dismiss_clears(rs.drop_last(), post, other);
        let prev = reports_not_about(rs.drop_last(), post);
        if rs.last().post_id != post {
            assert(prev.push(rs.last()).drop_last() =~= prev);
        }
    }
}

/// Shadowbanning, lifting, skip-listing, clearing a request toggle and
/// forbidding or allowing a tag are idempotent: doing it twice leaves what
/// doing it once left.
pub proof fn lemma_policy_updates_idempotent(
    banned: Set<i64>,
    who: i64,
    skipped: Set<Seq<char>>,
    source: Seq<char>,
    requests: Map<i64, String>,
    curator: i64,
    forbidden: Map<Seq<char>, Option<Seq<char>>>,
    tag: Seq<char>,
    reason: Option<Seq<char>>,
)
    ensures
        banned.insert(who).insert(who) == banned.insert(who),
        banned.remove(who).remove(who) == banned.remove(who),
        skipped.insert(source).insert(source) == skipped.insert(source),
        requests.remove(curator).remove(curator) == requests.remove(curator),
        forbidden.insert(tag, reason).insert(tag, reason) == forbidden.insert(tag, reason),
        forbidden.remove(tag).remove(tag) == forbidden.remove(tag),
{
    assert(banned.insert(who).insert(who) =~= banned.insert(who));
    assert(banned.remove(who).remove(who) =~= banned.remove(who));
    assert(skipped.insert(source).insert(source) =~= skipped.insert(source));
    assert(requests.remove(curator).remove(curator) =~= requests.remove(curator));
    assert(forbidden.insert(tag, reason).insert(tag, reason) =~= forbidden.insert(tag, reason));
    assert(forbidden.remove(tag).remove(tag) =~= forbidden.remove(tag));
}

} // verus!
