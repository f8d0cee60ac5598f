//! Posters: the feed's consumers.
//!
//! A Poster stores its tag subscription, its cadence and a cursor into the
//! one ordered feed. Each fire scans forward from the cursor; see
//! `crate::feed` for the scan itself.

use vstd::prelude::*;
use crate::tag_rule::{copy_rules, copy_terms, rules_view, terms_view, Lit, TagRule, TagTerm};
use crate::text::{clone_strings, views};

verus! {

/// Program-managed poster id.
#[derive(Debug, Clone, Copy, PartialEq, Eq, Hash, Structural)]
pub struct PosterId(pub u64);

// ------------------------------------------------------------ cadence ----

/// A cadence is valid when it divides the hour: the poster then fires on
/// the same minutes of every hour.
pub open spec fn divides_hour(minutes: int) -> bool {
    1 <= minutes && 60int % minutes == 0
}

/// How often (in minutes) a Poster fires. Always divides 60.
#[derive(Debug, Clone, Copy, PartialEq, Eq, Structural)]
pub struct PostInterval {
    minutes: u8,
}

impl View for PostInterval {
    type V = u8;

    closed spec fn view(&self) -> u8 {
        self.minutes
    }
}

/// A cadence that does not divide the hour.
#[derive(Debug, Clone, Copy, PartialEq, Eq, Structural)]
pub struct PostIntervalError(pub u8);

impl PostInterval {
    #[verifier::type_invariant]
    closed spec fn inv(self) -> bool {
        divides_hour(self.minutes as int)
    }

    /// A cadence of `minutes`; refused unless it divides the hour.
    pub fn new(minutes: u8) -> (r: Result<PostInterval, PostIntervalError>)
        ensures
            r is Ok <==> divides_hour(minutes as int),
            match r {
                Ok(i) => i@ == minutes,
                Err(e) => e == PostIntervalError(minutes),
            },
    {
        if minutes >= 1 && 60 % minutes == 0 {
            Ok(PostInterval { minutes })
        } else {
            Err(PostIntervalError(minutes))
        }
    }

    /// The cadence in minutes.
    pub fn minutes(&self) -> (m: u8)
        ensures
            m == self@,
            divides_hour(m as int),
    {
        proof {
            use_type_invariant(self);
        }
        self.minutes
    }
}

/// The minute of the hour a tick runs at.
#[derive(Debug, Clone, Copy, PartialEq, Eq, Structural)]
pub struct PublishBlock {
    minute: u8,
}

impl View for PublishBlock {
    type V = u8;

    closed spec fn view(&self) -> u8 {
        self.minute
    }
}

/// A minute of the hour outside `0..60`.
#[derive(Debug, Clone, Copy, PartialEq, Eq, Structural)]
pub struct PublishBlockError(pub u8);

/// A poster with cadence `interval` fires at minute `minute`.
pub open spec fn fires_at(minute: int, interval: int) -> bool {
    minute % interval == 0
}

impl PublishBlock {
    #[verifier::type_invariant]
    closed spec fn inv(self) -> bool {
        self.minute < 60
    }

    /// The block for a minute of the hour; refused outside `0..60`.
    pub fn try_from_minute(minute: u8) -> (r: Result<PublishBlock, PublishBlockError>)
        ensures
            r is Ok <==> minute < 60,
            match r {
                Ok(b) => b@ == minute,
                Err(e) => e == PublishBlockError(minute),
            },
    {
        if minute < 60 {
            Ok(PublishBlock { minute })
        } else {
            Err(PublishBlockError(minute))
        }
    }

    /// The minute of the hour.
    pub fn minute(&self) -> (m: u8)
        ensures
            m == self@,
            m < 60,
    {
        proof {
            use_type_invariant(self);
        }
        self.minute
    }

    /// Whether a poster with this cadence fires in this block.
    pub fn fires_for(&self, interval: &PostInterval) -> (b: bool)
        ensures
            b == fires_at(self@ as int, interval@ as int),
    {
        let m = interval.minutes();
        self.minute % m == 0
    }
}

/// A poster fires at a minute of the hour exactly when that minute is a
/// multiple of its cadence: at the top of every hour, and then every
/// `interval` minutes (a 30-minute poster at 0 and 30, an hourly one at 0).
pub proof fn lemma_fires_on_multiples(minute: int, interval: int)
    requires
        divides_hour(interval),
        0 <= minute < 60,
    ensures
        fires_at(minute, interval) <==> (exists|k: int| 0 <= k && #[trigger] (k * interval) == minute),
        fires_at(0, interval),
        fires_at(60 - interval, interval),
{
    if fires_at(minute, interval) {
        let k = minute / interval;
        assert(k * interval == minute) by (nonlinear_arith)
            requires
                minute % interval == 0,
                interval >= 1,
                k == minute / interval,
        ;
        assert(0 <= k) by (nonlinear_arith)
            requires
                minute >= 0,
                interval >= 1,
                k == minute / interval,
        ;
    }
    if exists|k: int| 0 <= k && #[trigger] (k * interval) == minute {
        let k = choose|k: int| 0 <= k && #[trigger] (k * interval) == minute;
        assert((k * interval) % interval == 0) by (nonlinear_arith)
            requires
                interval >= 1,
        ;
    }
    assert(0int % interval == 0) by (nonlinear_arith)
        requires
            interval >= 1,
    ;
    assert((60 - interval) % interval == 0) by (nonlinear_arith)
        requires
            interval >= 1,
            60int % interval == 0,
    ;
}

// ------------------------------------------------------------- poster ----

/// A consumer of the feed.
#[derive(Debug)]
pub struct Poster {
    pub id: PosterId,
    /// Every term must hold for an entry to be posted.
    pub subscribed_tags: Vec<TagTerm>,
    /// Any of these on an entry skips it.
    pub forbidden_tags: Vec<String>,
    pub time_interval: PostInterval,
    /// Feed position of the last entry this poster consumed.
    pub cursor: u64,
    /// Conditional constraints on top of the flat lists.
    pub rules: Vec<TagRule>,
}

/// A poster as a value.
#[verifier::ext_equal]
pub struct PosterView {
    pub id: PosterId,
    pub subscribed: Seq<Seq<Lit>>,
    pub forbidden: Seq<Seq<char>>,
    pub interval: u8,
    pub cursor: u64,
    pub rules: Seq<(Seq<Seq<Lit>>, Seq<Seq<Lit>>)>,
}

impl View for Poster {
    type V = PosterView;

    open spec fn view(&self) -> PosterView {
        PosterView {
            id: self.id,
            subscribed: terms_view(self.subscribed_tags@),
            forbidden: views(self.forbidden_tags@),
            interval: self.time_interval@,
            cursor: self.cursor,
            rules: rules_view(self.rules@),
        }
    }
}

/// The views of a list of posters.
pub open spec fn poster_views(ps: Seq<Poster>) -> Seq<PosterView> {
    ps.map_values(|p: Poster| p@)
}

/// A field-for-field copy of a poster.
pub fn copy_poster(p: &Poster) -> (r: Poster)
    ensures
        r@ == p@,
{
    Poster {
        id: p.id,
        subscribed_tags: copy_terms(&p.subscribed_tags),
        forbidden_tags: clone_strings(&p.forbidden_tags),
        time_interval: p.time_interval,
        cursor: p.cursor,
        rules: copy_rules(&p.rules),
    }
}

#[derive(Debug)]
pub enum PosterRepositoryError {
    NotFound(PosterId),
    /// The store cannot hand out another id.
    Full,
}

// --------------------------------------------------------- repository ----

/// The posters in id order, every id below `next`.
pub open spec fn posters_ok(ps: Seq<PosterView>, next: u64) -> bool {
    &&& forall|i: int, j: int| 0 <= i < j < ps.len() ==> (#[trigger] ps[i]).id.0 < (#[trigger] ps[j]).id.0
    &&& forall|i: int| 0 <= i < ps.len() ==> (#[trigger] ps[i]).id.0 < next
}

/// The index of the poster with id `id`, or the poster count.
pub open spec fn index_of(ps: Seq<PosterView>, id: PosterId) -> int {
    if exists|i: int| 0 <= i < ps.len() && ps[i].id == id {
        choose|i: int| 0 <= i < ps.len() && ps[i].id == id
    } else {
        ps.len() as int
    }
}

/// The poster with id `id`, if any.
pub open spec fn poster_by_id(ps: Seq<PosterView>, id: PosterId) -> Option<PosterView> {
    let i = index_of(ps, id);
    if i < ps.len() { Some(ps[i]) } else { None }
}

/// The in-memory poster store.
pub struct InMemoryPosterRepository {
    posters: Vec<Poster>,
    next_id: u64,
}

impl View for InMemoryPosterRepository {
    type V = Seq<PosterView>;

    closed spec fn view(&self) -> Seq<PosterView> {
        poster_views(self.posters@)
    }
}

impl InMemoryPosterRepository {
    #[verifier::type_invariant]
    closed spec fn wf(self) -> bool {
        posters_ok(poster_views(self.posters@), self.next_id)
    }

    /// The id the next created poster receives.
    pub closed spec fn next_id(&self) -> u64 {
        self.next_id
    }

    pub fn new() -> (r: Self)
        ensures
            r@ == Seq::<PosterView>::empty(),
            r.next_id() == 0,
    {
        let r = InMemoryPosterRepository { posters: Vec::new(), next_id: 0 };
        assert(r@ =~= Seq::<PosterView>::empty());
        r
    }

    /// Index of the poster with id `id`.
    fn find_index(&self, id: PosterId) -> (r: Option<usize>)
        ensures
            match r {
                Some(i) => i < self@.len() && self@[i as int].id == id && index_of(self@, id) == i,
                None => index_of(self@, id) == self@.len()
                    && forall|i: int| 0 <= i < self@.len() ==> self@[i].id != id,
            },
    {
        proof {
            use_type_invariant(self);
        }
        let mut k: usize = 0;
        while k < self.posters.len()
            invariant
                k <= self.posters.len(),
                self@.len() == self.posters.len(),
                posters_ok(self@, self.next_id),
                forall|i: int| 0 <= i < k ==> self@[i].id != id,
            decreases self.posters.len() - k,
        {
            if self.posters[k].id == id {
                assert(self@[k as int].id == id);
                proof {
                    assert(exists|i: int| 0 <= i < self@.len() && self@[i].id == id);
                    let c = choose|i: int| 0 <= i < self@.len() && self@[i].id == id;
                    assert(0 <= c < self@.len());
                    if c != k {
                        if c < k {
                            assert(self@[c].id.0 < self@[k as int].id.0);
                        } else {
                            assert(self@[k as int].id.0 < self@[c].id.0);
                        }
                    }
                }
                return Some(k);
            }
            k = k + 1;
        }
        None
    }

    /// Register a new poster with the given subscription, cadence and
    /// starting cursor; it receives the next id.
    pub fn create(
        &mut self,
        subscribed_tags: Vec<TagTerm>,
        forbidden_tags: Vec<String>,
        time_interval: PostInterval,
        cursor: u64,
    ) -> (r: Result<Poster, PosterRepositoryError>)
        ensures
            match r {
                Ok(p) => old(self).next_id() < u64::MAX
                    && p@ == (PosterView {
                        id: PosterId(old(self).next_id()),
                        subscribed: terms_view(subscribed_tags@),
                        forbidden: views(forbidden_tags@),
                        interval: time_interval@,
                        cursor,
                        rules: Seq::empty(),
                    })
                    && final(self)@ == old(self)@.push(p@)
                    && final(self).next_id() == old(self).next_id() + 1,
                Err(e) => old(self).next_id() == u64::MAX && e is Full && final(self)@ == old(self)@
                    && final(self).next_id() == old(self).next_id(),
            },
    {
        proof {
            use_type_invariant(&*self);
        }
        if self.next_id == u64::MAX {
            return Err(PosterRepositoryError::Full);
        }
        let poster = Poster {
            id: PosterId(self.next_id),
            subscribed_tags,
            forbidden_tags,
            time_interval,
            cursor,
            rules: Vec::new(),
        };
        assert(poster@.rules =~= Seq::<(Seq<Seq<Lit>>, Seq<Seq<Lit>>)>::empty());
        let copy = copy_poster(&poster);
        let mut posters: Vec<Poster> = Vec::new();
        std::mem::swap(&mut posters, &mut self.posters);
        let ghost before = posters@;
        posters.push(copy);
        assert(poster_views(posters@) =~= poster_views(before).push(poster@));
        let next = self.next_id + 1;
        *self = InMemoryPosterRepository { posters, next_id: next };
        Ok(poster)
    }

    pub fn find_by_id(&self, id: PosterId) -> (r: Option<Poster>)
        ensures
            match r {
                Some(p) => poster_by_id(self@, id) == Some(p@),
                None => poster_by_id(self@, id) is None,
            },
    {
        match self.find_index(id) {
            Some(i) => Some(copy_poster(&self.posters[i])),
            None => None,
        }
    }

    /// Put `p` (same id) in place of poster `i`.
    fn replace_at(&mut self, i: usize, p: Poster)
        requires
            i < old(self)@.len(),
            p.id == old(self)@[i as int].id,
        ensures
            final(self)@ == old(self)@.update(i as int, p@),
            final(self).next_id() == old(self).next_id(),
    {
        proof {
            use_type_invariant(&*self);
        }
        let mut posters: Vec<Poster> = Vec::new();
        std::mem::swap(&mut posters, &mut self.posters);
        let ghost before = posters@;
        posters.set(i, p);
        assert(poster_views(posters@) =~= poster_views(before).update(i as int, p@));
        let next = self.next_id;
        *self = InMemoryPosterRepository { posters, next_id: next };
    }

    /// Take poster `i` out of the store.
    fn take_at(&mut self, i: usize) -> (r: Poster)
        requires
            i < old(self)@.len(),
        ensures
            r@ == old(self)@[i as int],
            final(self)@ == old(self)@,
            final(self).next_id() == old(self).next_id(),
    {
        copy_poster(&self.posters[i])
    }

    /// Replace a poster's flat tag lists; rules, cadence and cursor stay.
    pub fn set_tags(
        &mut self,
        id: PosterId,
        subscribed_tags: Vec<TagTerm>,
        forbidden_tags: Vec<String>,
    ) -> (r: Result<Poster, PosterRepositoryError>)
        ensures
            match r {
                Ok(p) => poster_by_id(old(self)@, id) is Some
                    && p@ == (PosterView {
                        subscribed: terms_view(subscribed_tags@),
                        forbidden: views(forbidden_tags@),
                        ..poster_by_id(old(self)@, id)->0
                    })
                    && final(self)@ == old(self)@.update(index_of(old(self)@, id), p@),
                Err(e) => poster_by_id(old(self)@, id) is None && e == PosterRepositoryError::NotFound(id)
                    && final(self)@ == old(self)@,
            },
            final(self).next_id() == old(self).next_id(),
    {
        match self.find_index(id) {
            None => Err(PosterRepositoryError::NotFound(id)),
            Some(i) => {
                let old_poster = self.take_at(i);
                let updated = Poster { subscribed_tags, forbidden_tags, ..old_poster };
                let copy = copy_poster(&updated);
                self.replace_at(i, copy);
                Ok(updated)
            },
        }
    }

    /// Replace a poster's conditional rules.
    pub fn set_rules(&mut self, id: PosterId, rules: Vec<TagRule>) -> (r: Result<Poster, PosterRepositoryError>)
        ensures
            match r {
                Ok(p) => poster_by_id(old(self)@, id) is Some
                    && p@ == (PosterView { rules: rules_view(rules@), ..poster_by_id(old(self)@, id)->0 })
                    && final(self)@ == old(self)@.update(index_of(old(self)@, id), p@),
                Err(e) => poster_by_id(old(self)@, id) is None && e == PosterRepositoryError::NotFound(id)
                    && final(self)@ == old(self)@,
            },
            final(self).next_id() == old(self).next_id(),
    {
        match self.find_index(id) {
            None => Err(PosterRepositoryError::NotFound(id)),
            Some(i) => {
                let old_poster = self.take_at(i);
                let updated = Poster { rules, ..old_poster };
                let copy = copy_poster(&updated);
                self.replace_at(i, copy);
                Ok(updated)
            },
        }
    }

    /// Change a poster's cadence.
    pub fn set_interval(&mut self, id: PosterId, interval: PostInterval) -> (r: Result<Poster, PosterRepositoryError>)
        ensures
            match r {
                Ok(p) => poster_by_id(old(self)@, id) is Some
                    && p@ == (PosterView { interval: interval@, ..poster_by_id(old(self)@, id)->0 })
                    && final(self)@ == old(self)@.update(index_of(old(self)@, id), p@),
                Err(e) => poster_by_id(old(self)@, id) is None && e == PosterRepositoryError::NotFound(id)
                    && final(self)@ == old(self)@,
            },
            final(self).next_id() == old(self).next_id(),
    {
        match self.find_index(id) {
            None => Err(PosterRepositoryError::NotFound(id)),
            Some(i) => {
                let old_poster = self.take_at(i);
                let updated = Poster { time_interval: interval, ..old_poster };
                let copy = copy_poster(&updated);
                self.replace_at(i, copy);
                Ok(updated)
            },
        }
    }

    /// Move a poster's cursor.
    pub fn set_cursor(&mut self, id: PosterId, cursor: u64) -> (r: Result<(), PosterRepositoryError>)
        ensures
            match r {
                Ok(_) => poster_by_id(old(self)@, id) is Some
                    && final(self)@ == old(self)@.update(
                        index_of(old(self)@, id),
                        PosterView { cursor, ..poster_by_id(old(self)@, id)->0 },
                    ),
                Err(e) => poster_by_id(old(self)@, id) is None && e == PosterRepositoryError::NotFound(id)
                    && final(self)@ == old(self)@,
            },
            final(self).next_id() == old(self).next_id(),
    {
        match self.find_index(id) {
            None => Err(PosterRepositoryError::NotFound(id)),
            Some(i) => {
                let old_poster = self.take_at(i);
                let updated = Poster { cursor, ..old_poster };
                self.replace_at(i, updated);
                Ok(())
            },
        }
    }

    /// Remove a poster; the feed is untouched.
    pub fn delete(&mut self, id: PosterId) -> (r: Result<(), PosterRepositoryError>)
        ensures
            match r {
                Ok(_) => poster_by_id(old(self)@, id) is Some
                    && final(self)@ == old(self)@.remove(index_of(old(self)@, id)),
                Err(e) => poster_by_id(old(self)@, id) is None && e == PosterRepositoryError::NotFound(id)
                    && final(self)@ == old(self)@,
            },
            final(self).next_id() == old(self).next_id(),
    {
        proof {
            use_type_invariant(&*self);
        }
        match self.find_index(id) {
            None => Err(PosterRepositoryError::NotFound(id)),
            Some(i) => {
                let mut posters: Vec<Poster> = Vec::new();
                std::mem::swap(&mut posters, &mut self.posters);
                let ghost before = posters@;
                posters.remove(i);
                assert(poster_views(posters@) =~= poster_views(before).remove(i as int));
                let next = self.next_id;
                proof {
                    let pv = poster_views(posters@);
                    let bv = poster_views(before);
                    assert forall|a: int, b: int| 0 <= a < b < pv.len() implies (#[trigger] pv[a]).id.0 < (#[trigger] pv[b]).id.0 by {
                        let a2 = if a < i { a } else { a + 1 };
                        let b2 = if b < i { b } else { b + 1 };
                        assert(pv[a] == bv[a2]);
                        assert(pv[b] == bv[b2]);
                    }
                    assert forall|a: int| 0 <= a < pv.len() implies (#[trigger] pv[a]).id.0 < next by {
                        let a2 = if a < i { a } else { a + 1 };
                        assert(pv[a] == bv[a2]);
                    }
                }
                *self = InMemoryPosterRepository { posters, next_id: next };
                Ok(())
            },
        }
    }

    /// Every poster, in id order.
    pub fn list_all(&self) -> (r: Vec<Poster>)
        ensures
            poster_views(r@) == self@,
            posters_ok(self@, self.next_id()),
    {
        proof {
            use_type_invariant(self);
        }
        let mut r: Vec<Poster> = Vec::new();
        let mut k: usize = 0;
        while k < self.posters.len()
            invariant
                k <= self.posters.len(),
                self@.len() == self.posters.len(),
                poster_views(r@) == self@.take(k as int),
            decreases self.posters.len() - k,
        {
            let ghost before = r@;
            r.push(copy_poster(&self.posters[k]));
            assert(poster_views(r@) =~= poster_views(before).push(self@[k as int]));
            assert(self@.take(k + 1) =~= self@.take(k as int).push(self@[k as int]));
            k = k + 1;
        }
        assert(self@.take(self.posters.len() as int) =~= self@);
        r
    }
}

} // verus!
