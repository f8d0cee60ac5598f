//! Conditional tag rules: per-Poster eligibility constraints beyond flat
//! subscribe/forbid lists.
//!
//! Syntax (also the storage form): `[antecedent…]->[consequent…]`, where
//! each side is whitespace-separated *terms*. A term is a literal — `tag`
//! (must be present) or `-tag` (must be absent) — or an OR-group
//! `(literal literal …)` that holds when at least one of its literals
//! holds. If all antecedent terms hold for an entry's tags, all consequent
//! terms must hold too, otherwise the entry is skipped for this consumer.

use vstd::prelude::*;
use crate::text::{
    contains_string, views, is_ws,
    join, lemma_join_push, push_chars, chars_of, extend_from, first_idx, sub_vec, trim_bounds, trimmed, contains_char, find, find_char, has_char, next_whitespace, next_ws, push_str,
    skip_whitespace, skip_ws, string_of,
};

verus! {

/// A literal as a value: `(negated, tag)`; `(true, t)` reads `-t`.
pub type Lit = (bool, Seq<char>);

/// One side's element: a tag that must be present, or absent (`-tag`).
#[derive(Debug, Clone, PartialEq, Eq)]
pub enum TagLiteral {
    Has(String),
    Lacks(String),
}

impl View for TagLiteral {
    type V = Lit;

    open spec fn view(&self) -> Lit {
        match self {
            TagLiteral::Has(t) => (false, t@),
            TagLiteral::Lacks(t) => (true, t@),
        }
    }
}

/// One conjunction unit: a single literal, or an OR-group `(a b -c)` that
/// is satisfied when at least one of its literals holds.
#[derive(Debug, Clone, PartialEq, Eq)]
pub struct TagTerm(pub Vec<TagLiteral>);

impl View for TagTerm {
    type V = Seq<Lit>;

    open spec fn view(&self) -> Seq<Lit> {
        self.0@.map_values(|l: TagLiteral| l@)
    }
}

/// `[if_all…]->[then_all…]`.
#[derive(Debug, Clone, PartialEq, Eq)]
pub struct TagRule {
    pub if_all: Vec<TagTerm>,
    pub then_all: Vec<TagTerm>,
}

impl View for TagRule {
    type V = (Seq<Seq<Lit>>, Seq<Seq<Lit>>);

    open spec fn view(&self) -> (Seq<Seq<Lit>>, Seq<Seq<Lit>>) {
        (terms_view(self.if_all@), terms_view(self.then_all@))
    }
}

#[derive(Debug, Clone, Copy, PartialEq, Eq, Structural)]
pub enum TagRuleParseError {
    Malformed,
    EmptyLiteral,
    EmptySide,
    UnclosedGroup,
    EmptyGroup,
    NestedGroup,
    StrayParen,
}

pub open spec fn terms_view(ts: Seq<TagTerm>) -> Seq<Seq<Lit>> {
    ts.map_values(|t: TagTerm| t@)
}

pub open spec fn rules_view(rs: Seq<TagRule>) -> Seq<(Seq<Seq<Lit>>, Seq<Seq<Lit>>)> {
    rs.map_values(|r: TagRule| r@)
}

// ------------------------------------------------------------ grammar ----

/// A single word read as a literal.
pub open spec fn lit_spec(w: Seq<char>) -> Result<Lit, TagRuleParseError> {
    if w.len() == 0 {
        Err(TagRuleParseError::EmptyLiteral)
    } else if w[0] == '-' {
        if w.len() == 1 {
            Err(TagRuleParseError::EmptyLiteral)
        } else {
            Ok((true, w.drop_first()))
        }
    } else {
        Ok((false, w))
    }
}

/// The whitespace-separated literals of `s[i..end)`, the inside of a group.
pub open spec fn group_spec(s: Seq<char>, i: int, end: int) -> Result<Seq<Lit>, TagRuleParseError>
    decreases end - i,
{
    if i >= end {
        Ok(seq![])
    } else {
        let j = skip_ws(s, i, end);
        if j >= end {
            Ok(seq![])
        } else {
            let e = next_ws(s, j, end);
            match lit_spec(s.subrange(j, e)) {
                Err(x) => Err(x),
                Ok(l) => if e <= i || e > end {
                    Ok(seq![])
                } else {
                    match group_spec(s, e, end) {
                        Err(x) => Err(x),
                        Ok(r) => Ok(seq![l] + r),
                    }
                },
            }
        }
    }
}

/// The terms of `s[i..)`: bare literals and `(…)` groups.
pub open spec fn terms_from(s: Seq<char>, i: int) -> Result<Seq<Seq<Lit>>, TagRuleParseError>
    decreases s.len() - i,
{
    let n = s.len() as int;
    if i >= n {
        Ok(seq![])
    } else {
        let j = skip_ws(s, i, n);
        if j >= n || j < i {
            Ok(seq![])
        } else if s[j] == '(' {
            let k = find_char(s, j + 1, n, ')');
            if k >= n {
                Err(TagRuleParseError::UnclosedGroup)
            } else if has_char(s.subrange(j + 1, k), '(') {
                Err(TagRuleParseError::NestedGroup)
            } else {
                match group_spec(s, j + 1, k) {
                    Err(x) => Err(x),
                    Ok(g) => if g.len() == 0 {
                        Err(TagRuleParseError::EmptyGroup)
                    } else if k + 1 <= i {
                        Ok(seq![])
                    } else {
                        match terms_from(s, k + 1) {
                            Err(x) => Err(x),
                            Ok(r) => Ok(seq![g] + r),
                        }
                    },
                }
            }
        } else {
            let e = next_ws(s, j, n);
            let w = s.subrange(j, e);
            if has_char(w, '(') || has_char(w, ')') {
                Err(TagRuleParseError::StrayParen)
            } else {
                match lit_spec(w) {
                    Err(x) => Err(x),
                    Ok(l) => if e <= i || e > n {
                        Ok(seq![])
                    } else {
                        match terms_from(s, e) {
                            Err(x) => Err(x),
                            Ok(r) => Ok(seq![seq![l]] + r),
                        }
                    },
                }
            }
        }
    }
}

/// What [`TagTerm::parse_list`] makes of a string.
pub open spec fn parse_list_spec(s: Seq<char>) -> Result<Seq<Seq<Lit>>, TagRuleParseError> {
    terms_from(s, 0)
}

/// A blank subscription (nothing but whitespace) is the empty term list,
/// which every entry satisfies.
pub proof fn lemma_blank_list(s: Seq<char>)
    requires
        forall|k: int| 0 <= k < s.len() ==> is_ws(#[trigger] s[k]),
    ensures
        parse_list_spec(s) == Ok::<Seq<Seq<Lit>>, TagRuleParseError>(seq![]),
{
    if s.len() > 0 {
        crate::text::lemma_first_idx_is(0, s.len() as int, s.len() as int, |k: int| !is_ws(s[k]));
    }
}

pub open spec fn prepend<A>(acc: Seq<A>, r: Result<Seq<A>, TagRuleParseError>) -> Result<Seq<A>, TagRuleParseError> {
    match r {
        Ok(x) => Ok(acc + x),
        Err(e) => Err(e),
    }
}

pub open spec fn terms_result(r: Result<Vec<TagTerm>, TagRuleParseError>) -> Result<Seq<Seq<Lit>>, TagRuleParseError> {
    match r {
        Ok(v) => Ok(terms_view(v@)),
        Err(e) => Err(e),
    }
}

// ----------------------------------------------------------- matching ----

/// The tag names in a tag list, as a set.
pub open spec fn tag_set(tags: Seq<String>) -> Set<Seq<char>> {
    views(tags).to_set()
}

pub open spec fn lit_holds(l: Lit, tags: Set<Seq<char>>) -> bool {
    if l.0 { !tags.contains(l.1) } else { tags.contains(l.1) }
}

pub open spec fn term_holds(t: Seq<Lit>, tags: Set<Seq<char>>) -> bool {
    exists|i: int| 0 <= i < t.len() && lit_holds(#[trigger] t[i], tags)
}

pub open spec fn all_hold(ts: Seq<Seq<Lit>>, tags: Set<Seq<char>>) -> bool {
    forall|i: int| 0 <= i < ts.len() ==> term_holds(#[trigger] ts[i], tags)
}

pub open spec fn rule_holds(r: (Seq<Seq<Lit>>, Seq<Seq<Lit>>), tags: Set<Seq<char>>) -> bool {
    !all_hold(r.0, tags) || all_hold(r.1, tags)
}

/// A rule holds exactly when some term of its antecedent fails (the rule
/// is then vacuous) or every term of its consequent holds: one failing
/// antecedent term anywhere, not only the first, lets the entry through.
pub proof fn lemma_rule_meaning(r: (Seq<Seq<Lit>>, Seq<Seq<Lit>>), tags: Set<Seq<char>>)
    ensures
        rule_holds(r, tags) <==> (
            (exists|i: int| 0 <= i < r.0.len() && !term_holds(#[trigger] r.0[i], tags))
            || (forall|j: int| 0 <= j < r.1.len() ==> term_holds(#[trigger] r.1[j], tags))
        ),
{
}

pub fn has_tag(tags: &[String], tag: &String) -> (b: bool)
    ensures
        b == tag_set(tags@).contains(tag@),
{
    contains_string(tags, tag)
}

impl TagLiteral {
    pub fn holds(&self, tags: &[String]) -> (b: bool)
        ensures
            b == lit_holds(self@, tag_set(tags@)),
    {
        match self {
            TagLiteral::Has(tag) => has_tag(tags, tag),
            TagLiteral::Lacks(tag) => !has_tag(tags, tag),
        }
    }
}

impl TagTerm {
    /// At least one literal of the term holds.
    pub fn passes(&self, tags: &[String]) -> (b: bool)
        ensures
            b == term_holds(self@, tag_set(tags@)),
    {
        let mut i: usize = 0;
        while i < self.0.len()
            invariant
                i <= self.0.len(),
                forall|k: int| 0 <= k < i ==> !lit_holds(#[trigger] self@[k], tag_set(tags@)),
            decreases self.0.len() - i,
        {
            if self.0[i].holds(tags) {
                assert(lit_holds(self@[i as int], tag_set(tags@)));
                return true;
            }
            i = i + 1;
        }
        false
    }
}

/// Every term of the list holds.
pub fn all_pass(terms: &Vec<TagTerm>, tags: &[String]) -> (b: bool)
    ensures
        b == all_hold(terms_view(terms@), tag_set(tags@)),
{
    let mut i: usize = 0;
    while i < terms.len()
        invariant
            i <= terms.len(),
            forall|k: int| 0 <= k < i ==> term_holds(#[trigger] terms_view(terms@)[k], tag_set(tags@)),
        decreases terms.len() - i,
    {
        if !terms[i].passes(tags) {
            assert(!term_holds(terms_view(terms@)[i as int], tag_set(tags@)));
            return false;
        }
        i = i + 1;
    }
    true
}

impl TagRule {
    /// Whether the entry's tags satisfy this rule (vacuously true when the
    /// antecedent doesn't fully match).
    pub fn passes(&self, tags: &[String]) -> (b: bool)
        ensures
            b == rule_holds(self@, tag_set(tags@)),
    {
        if !all_pass(&self.if_all, tags) {
            return true;
        }
        all_pass(&self.then_all, tags)
    }
}

// ------------------------------------------------------------ parsing ----

fn parse_literal(v: &Vec<char>, a: usize, b: usize) -> (r: Result<TagLiteral, TagRuleParseError>)
    requires
        a < b <= v.len(),
    ensures
        match r {
            Ok(l) => lit_spec(v@.subrange(a as int, b as int)) == Ok::<Lit, TagRuleParseError>(l@),
            Err(e) => lit_spec(v@.subrange(a as int, b as int)) == Err::<Lit, TagRuleParseError>(e),
        },
{
    if v[a] == '-' {
        if b - a == 1 {
            Err(TagRuleParseError::EmptyLiteral)
        } else {
            let name = string_of(v, a + 1, b);
            assert(v@.subrange(a as int, b as int).drop_first() =~= v@.subrange(a + 1, b as int));
            Ok(TagLiteral::Lacks(name))
        }
    } else {
        Ok(TagLiteral::Has(string_of(v, a, b)))
    }
}

fn parse_group(v: &Vec<char>, start: usize, end: usize) -> (r: Result<Vec<TagLiteral>, TagRuleParseError>)
    requires
        start <= end <= v.len(),
    ensures
        match r {
            Ok(ls) => group_spec(v@, start as int, end as int) == Ok::<Seq<Lit>, TagRuleParseError>(ls@.map_values(|l: TagLiteral| l@)),
            Err(e) => group_spec(v@, start as int, end as int) == Err::<Seq<Lit>, TagRuleParseError>(e),
        },
{
    let mut lits: Vec<TagLiteral> = Vec::new();
    let mut i: usize = start;
    assert(seq![] + group_spec(v@, start as int, end as int)->Ok_0 =~= group_spec(v@, start as int, end as int)->Ok_0);
    loop
        invariant
            start <= i <= end <= v.len(),
            group_spec(v@, start as int, end as int) == prepend(lits@.map_values(|l: TagLiteral| l@), group_spec(v@, i as int, end as int)),
        decreases end - i,
    {
        let j = skip_whitespace(v, i, end);
        if j >= end {
            assert(lits@.map_values(|l: TagLiteral| l@) + seq![] =~= lits@.map_values(|l: TagLiteral| l@));
            return Ok(lits);
        }
        let e = next_whitespace(v, j, end);
        let lit = match parse_literal(v, j, e) {
            Ok(l) => l,
            Err(x) => return Err(x),
        };
        proof {
            let acc = lits@.map_values(|l: TagLiteral| l@);
            let rest = group_spec(v@, e as int, end as int);
            if rest is Ok {
                assert(acc + (seq![lit@] + rest->Ok_0) =~= acc.push(lit@) + rest->Ok_0);
            }
        }
        let ghost prev = lits@;
        lits.push(lit);
        assert(lits@.map_values(|l: TagLiteral| l@) =~= prev.map_values(|l: TagLiteral| l@).push(lit@));
        i = e;
    }
}


fn parse_terms(v: &Vec<char>) -> (r: Result<Vec<TagTerm>, TagRuleParseError>)
    ensures
        terms_result(r) == terms_from(v@, 0),
{
    let n = v.len();
    let mut terms: Vec<TagTerm> = Vec::new();
    let mut i: usize = 0;
    assert(seq![] + terms_from(v@, 0)->Ok_0 =~= terms_from(v@, 0)->Ok_0);
    loop
        invariant
            i <= n == v.len(),
            terms_from(v@, 0) == prepend(terms_view(terms@), terms_from(v@, i as int)),
        decreases n - i,
    {
        let j = skip_whitespace(v, i, n);
        if j >= n {
            assert(terms_view(terms@) + seq![] =~= terms_view(terms@));
            return Ok(terms);
        }
        let ghost prev = terms@;
        if v[j] == '(' {
            let k = find(v, j + 1, n, ')');
            if k >= n {
                return Err(TagRuleParseError::UnclosedGroup);
            }
            if contains_char(v, j + 1, k, '(') {
                return Err(TagRuleParseError::NestedGroup);
            }
            let lits = match parse_group(v, j + 1, k) {
                Ok(l) => l,
                Err(x) => return Err(x),
            };
            if lits.len() == 0 {
                return Err(TagRuleParseError::EmptyGroup);
            }
            let term = TagTerm(lits);
            proof {
                let rest = terms_from(v@, k + 1);
                if rest is Ok {
                    assert(terms_view(prev) + (seq![term@] + rest->Ok_0) =~= terms_view(prev).push(term@) + rest->Ok_0);
                }
            }
            terms.push(term);
            assert(terms_view(terms@) =~= terms_view(prev).push(term@));
            i = k + 1;
        } else {
            let e = next_whitespace(v, j, n);
            if contains_char(v, j, e, '(') || contains_char(v, j, e, ')') {
                return Err(TagRuleParseError::StrayParen);
            }
            let lit = match parse_literal(v, j, e) {
                Ok(l) => l,
                Err(x) => return Err(x),
            };
            let term = TagTerm(vec![lit]);
            assert(term@ =~= seq![lit@]);
            proof {
                let rest = terms_from(v@, e as int);
                if rest is Ok {
                    assert(terms_view(prev) + (seq![term@] + rest->Ok_0) =~= terms_view(prev).push(term@) + rest->Ok_0);
                }
            }
            terms.push(term);
            assert(terms_view(terms@) =~= terms_view(prev).push(term@));
            i = e;
        }
    }
}

impl TagTerm {
    /// Parse a whitespace-separated list of terms, honoring `(…)` groups.
    /// The empty string is an empty (always-true) list.
    pub fn parse_list(raw: &str) -> (r: Result<Vec<TagTerm>, TagRuleParseError>)
        ensures
            terms_result(r) == parse_list_spec(raw@),
    {
        let v = chars_of(raw);
        parse_terms(&v)
    }
}


pub type RuleV = (Seq<Seq<Lit>>, Seq<Seq<Lit>>);

/// `]->[` starts at `k`.
pub open spec fn arrow_at(t: Seq<char>) -> spec_fn(int) -> bool {
    |k: int| t[k] == ']' && t[k + 1] == '-' && t[k + 2] == '>' && t[k + 3] == '['
}

/// One side of a rule: a non-empty term list.
pub open spec fn side_spec(x: Seq<char>) -> Result<Seq<Seq<Lit>>, TagRuleParseError> {
    match terms_from(x, 0) {
        Err(e) => Err(e),
        Ok(ts) => if ts.len() == 0 {
            Err(TagRuleParseError::EmptySide)
        } else {
            Ok(ts)
        },
    }
}

/// What [`TagRule`]'s `parse` makes of a string.
pub open spec fn rule_spec(s: Seq<char>) -> Result<RuleV, TagRuleParseError> {
    let t = trimmed(s);
    let m = t.len() as int;
    if m == 0 || t[0] != '[' {
        Err(TagRuleParseError::Malformed)
    } else {
        let p = first_idx(1, m - 3, arrow_at(t));
        if p >= m - 3 || p + 4 >= m || t[m - 1] != ']' {
            Err(TagRuleParseError::Malformed)
        } else {
            match side_spec(t.subrange(1, p)) {
                Err(e) => Err(e),
                Ok(l) => match side_spec(t.subrange(p + 4, m - 1)) {
                    Err(e) => Err(e),
                    Ok(r) => Ok((l, r)),
                },
            }
        }
    }
}

pub open spec fn rule_result(r: Result<TagRule, TagRuleParseError>) -> Result<RuleV, TagRuleParseError> {
    match r {
        Ok(rule) => Ok(rule@),
        Err(e) => Err(e),
    }
}

fn parse_side(x: &Vec<char>) -> (r: Result<Vec<TagTerm>, TagRuleParseError>)
    ensures
        terms_result(r) == side_spec(x@),
{
    let terms = match parse_terms(x) {
        Ok(t) => t,
        Err(e) => return Err(e),
    };
    if terms.len() == 0 {
        return Err(TagRuleParseError::EmptySide);
    }
    Ok(terms)
}

fn parse_rule_chars(v: &Vec<char>) -> (r: Result<TagRule, TagRuleParseError>)
    ensures
        rule_result(r) == rule_spec(v@),
{
    let (a, b) = trim_bounds(v);
    let t = sub_vec(v, a, b);
    let m = t.len();
    if m == 0 || t[0] != '[' {
        return Err(TagRuleParseError::Malformed);
    }
    let ghost arrow = arrow_at(t@);
    let mut p: usize = 1;
    while m - p > 3 && !(t[p] == ']' && t[p + 1] == '-' && t[p + 2] == '>' && t[p + 3] == '[')
        invariant
            1 <= p <= m == t.len(),
            m >= 1,
            arrow == arrow_at(t@),
            forall|k: int| 1 <= k < p ==> !#[trigger] arrow(k),
        decreases m - p,
    {
        assert(!arrow(p as int));
        p = p + 1;
    }
    if m - p <= 3 {
        proof {
            if m >= 4 {
                crate::text::lemma_first_idx_is(1, m - 3, m - 3, arrow);
            }
        }
        return Err(TagRuleParseError::Malformed);
    }
    proof {
        crate::text::lemma_first_idx_is(1, p as int, m - 3, arrow);
    }
    if p + 4 >= m || t[m - 1] != ']' {
        return Err(TagRuleParseError::Malformed);
    }
    let left = sub_vec(&t, 1, p);
    let right = sub_vec(&t, p + 4, m - 1);
    let l = match parse_side(&left) {
        Ok(l) => l,
        Err(e) => return Err(e),
    };
    let r = match parse_side(&right) {
        Ok(r) => r,
        Err(e) => return Err(e),
    };
    Ok(TagRule { if_all: l, then_all: r })
}

impl TagRule {
    /// Parse one `[…]->[…]` rule (surrounding whitespace allowed).
    pub fn parse(raw: &str) -> (r: Result<TagRule, TagRuleParseError>)
        ensures
            rule_result(r) == rule_spec(raw@),
    {
        let v = chars_of(raw);
        parse_rule_chars(&v)
    }
}

/// The rule text `[left]->[right]` rebuilt from its two sides.
pub open spec fn rule_text_of(left: Seq<char>, right: Seq<char>) -> Seq<char> {
    seq!['['] + left + seq![']', '-', '>', '['] + right + seq![']']
}

/// Every `[…]->[…]` rule of the (trimmed) text `t` from position `i` on.
pub open spec fn rules_from(t: Seq<char>, i: int) -> Result<Seq<RuleV>, TagRuleParseError>
    decreases t.len() - i,
{
    let m = t.len() as int;
    if i >= m || i < 0 {
        Ok(seq![])
    } else if t[i] != '[' {
        Err(TagRuleParseError::Malformed)
    } else {
        let c = find_char(t, i + 1, m, ']');
        if c >= m || c < i {
            Err(TagRuleParseError::Malformed)
        } else if !(c + 3 < m && t[c + 1] == '-' && t[c + 2] == '>' && t[c + 3] == '[') {
            Err(TagRuleParseError::Malformed)
        } else {
            let c2 = find_char(t, c + 4, m, ']');
            if c2 >= m || c2 < c + 4 {
                Err(TagRuleParseError::Malformed)
            } else {
                match rule_spec(rule_text_of(t.subrange(i + 1, c), t.subrange(c + 4, c2))) {
                    Err(e) => Err(e),
                    Ok(rule) => {
                        let next = skip_ws(t, c2 + 1, m);
                        if next <= i || next > m {
                            Ok(seq![])
                        } else {
                            match rules_from(t, next) {
                                Err(e) => Err(e),
                                Ok(rest) => Ok(seq![rule] + rest),
                            }
                        }
                    },
                }
            }
        }
    }
}

/// What [`TagRule::parse_all`] makes of a string.
pub open spec fn parse_all_spec(s: Seq<char>) -> Result<Seq<RuleV>, TagRuleParseError> {
    rules_from(trimmed(s), 0)
}

pub open spec fn prepend_rules(acc: Seq<RuleV>, r: Result<Seq<RuleV>, TagRuleParseError>) -> Result<Seq<RuleV>, TagRuleParseError> {
    match r {
        Ok(x) => Ok(acc + x),
        Err(e) => Err(e),
    }
}

pub open spec fn rules_result(r: Result<Vec<TagRule>, TagRuleParseError>) -> Result<Seq<RuleV>, TagRuleParseError> {
    match r {
        Ok(v) => Ok(rules_view(v@)),
        Err(e) => Err(e),
    }
}

/// Parse the rule starting at `t[i]` (the loop body of [`TagRule::parse_all`]).
fn parse_next_rule(t: &Vec<char>, i: usize) -> (r: Result<(TagRule, usize), TagRuleParseError>)
    requires
        i < t.len(),
    ensures
        match r {
            Ok((rule, next)) => i < next <= t.len()
                && rules_from(t@, i as int) == prepend_rules(seq![rule@], rules_from(t@, next as int)),
            Err(e) => rules_from(t@, i as int) == Err::<Seq<RuleV>, TagRuleParseError>(e),
        },
{
    let m = t.len();
    if t[i] != '[' {
        return Err(TagRuleParseError::Malformed);
    }
    let c = find(t, i + 1, m, ']');
    if c >= m {
        return Err(TagRuleParseError::Malformed);
    }
    if !(m - c > 3 && t[c + 1] == '-' && t[c + 2] == '>' && t[c + 3] == '[') {
        return Err(TagRuleParseError::Malformed);
    }
    let c2 = find(t, c + 4, m, ']');
    if c2 >= m {
        return Err(TagRuleParseError::Malformed);
    }
    let mut text: Vec<char> = Vec::new();
    text.push('[');
    extend_from(&mut text, t, i + 1, c);
    text.push(']');
    text.push('-');
    text.push('>');
    text.push('[');
    extend_from(&mut text, t, c + 4, c2);
    text.push(']');
    assert(text@ =~= rule_text_of(t@.subrange(i + 1, c as int), t@.subrange(c + 4, c2 as int)));
    let rule = match parse_rule_chars(&text) {
        Ok(rule) => rule,
        Err(e) => return Err(e),
    };
    let next = skip_whitespace(t, c2 + 1, m);
    Ok((rule, next))
}

impl TagRule {
    /// Parse every `[…]->[…]` rule in a free-form string (the storage and
    /// command-argument format). Errors on any malformed fragment.
    pub fn parse_all(raw: &str) -> (r: Result<Vec<TagRule>, TagRuleParseError>)
        ensures
            rules_result(r) == parse_all_spec(raw@),
    {
        let v = chars_of(raw);
        let (a, b) = trim_bounds(&v);
        let t = sub_vec(&v, a, b);
        let m = t.len();
        let mut rules: Vec<TagRule> = Vec::new();
        let mut i: usize = 0;
        assert(seq![] + rules_from(t@, 0)->Ok_0 =~= rules_from(t@, 0)->Ok_0);
        loop
            invariant
                i <= m == t.len(),
                t@ == trimmed(raw@),
                rules_from(t@, 0) == prepend_rules(rules_view(rules@), rules_from(t@, i as int)),
            decreases m - i,
        {
            if i >= m {
                assert(rules_view(rules@) + seq![] =~= rules_view(rules@));
                return Ok(rules);
            }
            let (rule, next) = match parse_next_rule(&t, i) {
                Ok(x) => x,
                Err(e) => return Err(e),
            };
            let ghost prev = rules@;
            proof {
                let rest = rules_from(t@, next as int);
                if rest is Ok {
                    assert(rules_view(prev) + (seq![rule@] + rest->Ok_0) =~= rules_view(prev).push(rule@) + rest->Ok_0);
                }
            }
            rules.push(rule);
            assert(rules_view(rules@) =~= rules_view(prev).push(rule@));
            i = next;
        }
    }
}


// ------------------------------------------------------------ display ----

pub open spec fn lit_text(l: Lit) -> Seq<char> {
    if l.0 { seq!['-'] + l.1 } else { l.1 }
}

pub open spec fn term_text(t: Seq<Lit>) -> Seq<char> {
    if t.len() == 1 {
        lit_text(t[0])
    } else {
        seq!['('] + join(t.map_values(|l: Lit| lit_text(l)), seq![' ']) + seq![')']
    }
}

pub open spec fn terms_text(ts: Seq<Seq<Lit>>) -> Seq<char> {
    join(ts.map_values(|t: Seq<Lit>| term_text(t)), seq![' '])
}

pub open spec fn rule_text(r: RuleV) -> Seq<char> {
    seq!['['] + terms_text(r.0) + seq![']', '-', '>', '['] + terms_text(r.1) + seq![']']
}

impl TagLiteral {
    /// `tag` or `-tag`.
    pub fn to_string(&self) -> (s: String)
        ensures
            s@ == lit_text(self@),
    {
        let mut s = String::new();
        match self {
            TagLiteral::Has(tag) => push_str(&mut s, tag.as_str()),
            TagLiteral::Lacks(tag) => {
                push_chars(&mut s, &['-']);
                push_str(&mut s, tag.as_str());
            },
        }
        s
    }
}

impl TagTerm {
    /// `tag`, `-tag`, or the group form `(a -b c)`.
    pub fn to_string(&self) -> (s: String)
        ensures
            s@ == term_text(self@),
    {
        if self.0.len() == 1 {
            return self.0[0].to_string();
        }
        let ghost parts = self@.map_values(|l: Lit| lit_text(l));
        let mut s = String::new();
        push_chars(&mut s, &['(']);
        let mut body = String::new();
        let mut k: usize = 0;
        while k < self.0.len()
            invariant
                k <= self.0.len(),
                parts == self@.map_values(|l: Lit| lit_text(l)),
                body@ == join(parts.take(k as int), seq![' ']),
            decreases self.0.len() - k,
        {
            proof {
                lemma_join_push(parts.take(k as int), parts[k as int], seq![' ']);
                assert(parts.take(k + 1) =~= parts.take(k as int).push(parts[k as int]));
            }
            if k > 0 {
                push_chars(&mut body, &[' ']);
            }
            let part = self.0[k].to_string();
            push_str(&mut body, part.as_str());
            k = k + 1;
        }
        assert(parts.take(self.0.len() as int) =~= parts);
        push_str(&mut s, body.as_str());
        push_chars(&mut s, &[')']);
        s
    }
}

/// A term list as text, terms separated by single spaces.
pub fn terms_to_string(terms: &Vec<TagTerm>) -> (s: String)
    ensures
        s@ == terms_text(terms_view(terms@)),
{
    let ghost parts = terms_view(terms@).map_values(|t: Seq<Lit>| term_text(t));
    let mut s = String::new();
    let mut k: usize = 0;
    while k < terms.len()
        invariant
            k <= terms.len(),
            parts == terms_view(terms@).map_values(|t: Seq<Lit>| term_text(t)),
            s@ == join(parts.take(k as int), seq![' ']),
        decreases terms.len() - k,
    {
        proof {
            lemma_join_push(parts.take(k as int), parts[k as int], seq![' ']);
            assert(parts.take(k + 1) =~= parts.take(k as int).push(parts[k as int]));
        }
        if k > 0 {
            push_chars(&mut s, &[' ']);
        }
        let part = terms[k].to_string();
        push_str(&mut s, part.as_str());
        k = k + 1;
    }
    assert(parts.take(terms.len() as int) =~= parts);
    s
}

impl TagRule {
    /// The storage form `[…]->[…]`.
    pub fn to_string(&self) -> (s: String)
        ensures
            s@ == rule_text(self@),
    {
        let mut s = String::new();
        push_chars(&mut s, &['[']);
        let left = terms_to_string(&self.if_all);
        push_str(&mut s, left.as_str());
        push_chars(&mut s, &[']', '-', '>', '[']);
        let right = terms_to_string(&self.then_all);
        push_str(&mut s, right.as_str());
        push_chars(&mut s, &[']']);
        s
    }
}

// ----------------------------------------------------------- describe ----

pub open spec fn lit_describe(l: Lit) -> Seq<char> {
    if l.0 { seq!['N', 'O', ' '] + l.1 } else { l.1 }
}

/// Inside an OR-group negations are parenthesized so the OR binds visibly.
pub open spec fn grouped_describe(l: Lit) -> Seq<char> {
    if l.0 { seq!['('] + lit_describe(l) + seq![')'] } else { lit_describe(l) }
}

pub open spec fn term_describe(t: Seq<Lit>) -> Seq<char> {
    if t.len() == 1 {
        lit_describe(t[0])
    } else {
        seq!['('] + join(t.map_values(|l: Lit| grouped_describe(l)), seq![' ', 'O', 'R', ' ']) + seq![')']
    }
}

pub open spec fn list_describe(ts: Seq<Seq<Lit>>) -> Seq<char> {
    join(ts.map_values(|t: Seq<Lit>| term_describe(t)), seq![' ', 'A', 'N', 'D', ' '])
}

pub open spec fn rule_describe(r: RuleV) -> Seq<char> {
    list_describe(r.0) + seq![' ', 'R', 'E', 'Q', 'U', 'I', 'R', 'E', ' '] + list_describe(r.1)
}

impl TagLiteral {
    /// The natural-language reading: `solo` / `NO female`.
    pub fn describe(&self) -> (s: String)
        ensures
            s@ == lit_describe(self@),
    {
        let mut s = String::new();
        match self {
            TagLiteral::Has(tag) => push_str(&mut s, tag.as_str()),
            TagLiteral::Lacks(tag) => {
                push_chars(&mut s, &['N', 'O', ' ']);
                push_str(&mut s, tag.as_str());
            },
        }
        s
    }
}

impl TagTerm {
    /// The natural-language reading of one term: a bare literal reads as
    /// itself (`solo`, `NO male`); an OR-group reads as
    /// `((NO female) OR intersex)`.
    pub fn describe(&self) -> (s: String)
        ensures
            s@ == term_describe(self@),
    {
        if self.0.len() == 1 {
            return self.0[0].describe();
        }
        let ghost parts = self@.map_values(|l: Lit| grouped_describe(l));
        let mut body = String::new();
        let mut k: usize = 0;
        while k < self.0.len()
            invariant
                k <= self.0.len(),
                parts == self@.map_values(|l: Lit| grouped_describe(l)),
                body@ == join(parts.take(k as int), seq![' ', 'O', 'R', ' ']),
            decreases self.0.len() - k,
        {
            proof {
                lemma_join_push(parts.take(k as int), parts[k as int], seq![' ', 'O', 'R', ' ']);
                assert(parts.take(k + 1) =~= parts.take(k as int).push(parts[k as int]));
            }
            if k > 0 {
                push_chars(&mut body, &[' ', 'O', 'R', ' ']);
            }
            let lit = &self.0[k];
            let part = lit.describe();
            match lit {
                TagLiteral::Has(_) => push_str(&mut body, part.as_str()),
                TagLiteral::Lacks(_) => {
                    push_chars(&mut body, &['(']);
                    push_str(&mut body, part.as_str());
                    push_chars(&mut body, &[')']);
                },
            }
            k = k + 1;
        }
        assert(parts.take(self.0.len() as int) =~= parts);
        let mut s = String::new();
        push_chars(&mut s, &['(']);
        push_str(&mut s, body.as_str());
        push_chars(&mut s, &[')']);
        s
    }

    /// A whole conjunction of terms: `solo AND avian`.
    pub fn describe_list(terms: &[TagTerm]) -> (s: String)
        ensures
            s@ == list_describe(terms_view(terms@)),
    {
        let ghost parts = terms_view(terms@).map_values(|t: Seq<Lit>| term_describe(t));
        let mut s = String::new();
        let mut k: usize = 0;
        while k < terms.len()
            invariant
                k <= terms.len(),
                parts == terms_view(terms@).map_values(|t: Seq<Lit>| term_describe(t)),
                s@ == join(parts.take(k as int), seq![' ', 'A', 'N', 'D', ' ']),
            decreases terms.len() - k,
        {
            proof {
                lemma_join_push(parts.take(k as int), parts[k as int], seq![' ', 'A', 'N', 'D', ' ']);
                assert(parts.take(k + 1) =~= parts.take(k as int).push(parts[k as int]));
            }
            if k > 0 {
                push_chars(&mut s, &[' ', 'A', 'N', 'D', ' ']);
            }
            let part = terms[k].describe();
            push_str(&mut s, part.as_str());
            k = k + 1;
        }
        assert(parts.take(terms.len() as int) =~= parts);
        s
    }
}

impl TagRule {
    /// The natural-language reading of the whole rule:
    /// `[solo avian]->[(-female intersex) bird]` reads as
    /// `solo AND avian REQUIRE ((NO female) OR intersex) AND bird`.
    pub fn describe(&self) -> (s: String)
        ensures
            s@ == rule_describe(self@),
    {
        let mut s = TagTerm::describe_list(self.if_all.as_slice());
        push_chars(&mut s, &[' ', 'R', 'E', 'Q', 'U', 'I', 'R', 'E', ' ']);
        let right = TagTerm::describe_list(self.then_all.as_slice());
        push_str(&mut s, right.as_str());
        s
    }
}


impl TagLiteral {
    /// Parse one literal: `tag` or `-tag`.
    pub fn parse(raw: &str) -> (r: Result<TagLiteral, TagRuleParseError>)
        ensures
            match r {
                Ok(l) => lit_spec(raw@) == Ok::<Lit, TagRuleParseError>(l@),
                Err(e) => lit_spec(raw@) == Err::<Lit, TagRuleParseError>(e),
            },
    {
        let v = chars_of(raw);
        if v.len() == 0 {
            return Err(TagRuleParseError::EmptyLiteral);
        }
        let r = parse_literal(&v, 0, v.len());
        assert(v@.subrange(0, v.len() as int) =~= v@);
        r
    }
}

impl std::str::FromStr for TagLiteral {
    type Err = TagRuleParseError;

    fn from_str(raw: &str) -> (r: Result<TagLiteral, TagRuleParseError>)
        ensures
            match r {
                Ok(l) => lit_spec(raw@) == Ok::<Lit, TagRuleParseError>(l@),
                Err(e) => lit_spec(raw@) == Err::<Lit, TagRuleParseError>(e),
            },
    {
        TagLiteral::parse(raw)
    }
}

impl std::str::FromStr for TagRule {
    type Err = TagRuleParseError;

    fn from_str(raw: &str) -> (r: Result<TagRule, TagRuleParseError>)
        ensures
            rule_result(r) == rule_spec(raw@),
    {
        TagRule::parse(raw)
    }
}

// -------------------------------------------------------------- copies ----

impl TagLiteral {
    /// A copy with the same view.
    pub fn copy(&self) -> (r: TagLiteral)
        ensures
            r@ == self@,
    {
        match self {
            TagLiteral::Has(t) => TagLiteral::Has(t.clone()),
            TagLiteral::Lacks(t) => TagLiteral::Lacks(t.clone()),
        }
    }
}

impl TagTerm {
    /// A copy with the same view.
    pub fn copy(&self) -> (r: TagTerm)
        ensures
            r@ == self@,
    {
        let mut v: Vec<TagLiteral> = Vec::new();
        let mut k: usize = 0;
        while k < self.0.len()
            invariant
                k <= self.0.len(),
                v@.map_values(|l: TagLiteral| l@) == self@.take(k as int),
            decreases self.0.len() - k,
        {
            let ghost before = v@;
            v.push(self.0[k].copy());
            assert(v@.map_values(|l: TagLiteral| l@) =~= before.map_values(|l: TagLiteral| l@).push(self@[k as int]));
            assert(self@.take(k + 1) =~= self@.take(k as int).push(self@[k as int]));
            k = k + 1;
        }
        assert(self@.take(self.0.len() as int) =~= self@);
        let r = TagTerm(v);
        assert(r@ =~= self@);
        r
    }
}

/// A copy of a term list with the same views.
pub fn copy_terms(ts: &Vec<TagTerm>) -> (r: Vec<TagTerm>)
    ensures
        terms_view(r@) == terms_view(ts@),
{
    let mut v: Vec<TagTerm> = Vec::new();
    let mut k: usize = 0;
    while k < ts.len()
        invariant
            k <= ts.len(),
            terms_view(v@) == terms_view(ts@).take(k as int),
        decreases ts.len() - k,
    {
        let ghost before = v@;
        v.push(ts[k].copy());
        assert(terms_view(v@) =~= terms_view(before).push(terms_view(ts@)[k as int]));
        assert(terms_view(ts@).take(k + 1) =~= terms_view(ts@).take(k as int).push(terms_view(ts@)[k as int]));
        k = k + 1;
    }
    assert(terms_view(ts@).take(ts.len() as int) =~= terms_view(ts@));
    v
}

impl TagRule {
    /// A copy with the same view.
    pub fn copy(&self) -> (r: TagRule)
        ensures
            r@ == self@,
    {
        TagRule { if_all: copy_terms(&self.if_all), then_all: copy_terms(&self.then_all) }
    }
}

/// A copy of a rule list with the same views.
pub fn copy_rules(rs: &Vec<TagRule>) -> (r: Vec<TagRule>)
    ensures
        rules_view(r@) == rules_view(rs@),
{
    let mut v: Vec<TagRule> = Vec::new();
    let mut k: usize = 0;
    while k < rs.len()
        invariant
            k <= rs.len(),
            rules_view(v@) == rules_view(rs@).take(k as int),
        decreases rs.len() - k,
    {
        let ghost before = v@;
        v.push(rs[k].copy());
        assert(rules_view(v@) =~= rules_view(before).push(rules_view(rs@)[k as int]));
        assert(rules_view(rs@).take(k + 1) =~= rules_view(rs@).take(k as int).push(rules_view(rs@)[k as int]));
        k = k + 1;
    }
    assert(rules_view(rs@).take(rs.len() as int) =~= rules_view(rs@));
    v
}

pub open spec fn parse_error_text(e: TagRuleParseError) -> Seq<char> {
    match e {
        TagRuleParseError::Malformed => "rule must look like [tag tag]->[tag -tag]"@,
        TagRuleParseError::EmptyLiteral => "empty tag literal"@,
        TagRuleParseError::EmptySide => "both sides of a rule need at least one literal"@,
        TagRuleParseError::UnclosedGroup => "unclosed ( group"@,
        TagRuleParseError::EmptyGroup => "empty () group"@,
        TagRuleParseError::NestedGroup => "nested ( groups are not supported"@,
        TagRuleParseError::StrayParen => "( and ) must wrap whole groups, not sit inside a tag"@,
    }
}

impl TagRuleParseError {
    /// The error in words.
    pub fn to_string(&self) -> (s: String)
        ensures
            s@ == parse_error_text(*self),
    {
        let mut s = String::new();
        match self {
            TagRuleParseError::Malformed => push_str(&mut s, "rule must look like [tag tag]->[tag -tag]"),
            TagRuleParseError::EmptyLiteral => push_str(&mut s, "empty tag literal"),
            TagRuleParseError::EmptySide => push_str(&mut s, "both sides of a rule need at least one literal"),
            TagRuleParseError::UnclosedGroup => push_str(&mut s, "unclosed ( group"),
            TagRuleParseError::EmptyGroup => push_str(&mut s, "empty () group"),
            TagRuleParseError::NestedGroup => push_str(&mut s, "nested ( groups are not supported"),
            TagRuleParseError::StrayParen => push_str(&mut s, "( and ) must wrap whole groups, not sit inside a tag"),
        }
        s
    }
}

} // verus!
