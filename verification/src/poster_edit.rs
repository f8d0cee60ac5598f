//! Editing a poster's lists in place: subscription terms, forbidden tags
//! and rules are added or removed entry by entry, and the entries that
//! changed nothing are reported back.

use vstd::prelude::*;
use crate::tag_rule::{rule_text, rules_view, term_text, terms_view, Lit, RuleV, TagLiteral, TagRule, TagTerm};
use crate::text::{push_str, str_eq, views};

verus! {

// ------------------------------------------------------------ the model ----

/// Adding `add` to `cur` entry by entry: an entry already present (also
/// one added just before) changes nothing and is reported. The list and
/// the reported entries.
pub open spec fn added<A>(cur: Seq<A>, add: Seq<A>) -> (Seq<A>, Seq<A>)
    decreases add.len(),
{
    if add.len() == 0 {
        (cur, seq![])
    } else {
        let (r, u) = added(cur, add.drop_last());
        let x = add.last();
        if r.contains(x) { (r, u.push(x)) } else { (r.push(x), u) }
    }
}

/// `s` without any entry equal to `x`.
pub open spec fn without<A>(s: Seq<A>, x: A) -> Seq<A>
    decreases s.len(),
{
    if s.len() == 0 {
        seq![]
    } else {
        let prev = without(s.drop_last(), x);
        if s.last() == x { prev } else { prev.push(s.last()) }
    }
}

/// Removing `rem` from `cur` entry by entry: a present entry goes (every
/// copy of it); an absent one changes nothing and is reported.
pub open spec fn removed<A>(cur: Seq<A>, rem: Seq<A>) -> (Seq<A>, Seq<A>)
    decreases rem.len(),
{
    if rem.len() == 0 {
        (cur, seq![])
    } else {
        let (r, u) = removed(cur, rem.drop_last());
        let x = rem.last();
        if r.contains(x) { (without(r, x), u) } else { (r, u.push(x)) }
    }
}

// ------------------------------------------------------------- equality ----

pub fn lit_eq(a: &TagLiteral, b: &TagLiteral) -> (r: bool)
    ensures
        r == (a@ == b@),
{
    match a {
        TagLiteral::Has(x) => match b {
            TagLiteral::Has(y) => str_eq(x.as_str(), y.as_str()),
            TagLiteral::Lacks(_) => false,
        },
        TagLiteral::Lacks(x) => match b {
            TagLiteral::Lacks(y) => str_eq(x.as_str(), y.as_str()),
            TagLiteral::Has(_) => false,
        },
    }
}

pub fn term_eq(a: &TagTerm, b: &TagTerm) -> (r: bool)
    ensures
        r == (a@ == b@),
{
    if a.0.len() != b.0.len() {
        assert(a@.len() != b@.len());
        return false;
    }
    let mut k: usize = 0;
    while k < a.0.len()
        invariant
            k <= a.0.len() == b.0.len(),
            forall|j: int| 0 <= j < k ==> a@[j] == b@[j],
        decreases a.0.len() - k,
    {
        if !lit_eq(&a.0[k], &b.0[k]) {
            assert(a@[k as int] != b@[k as int]);
            return false;
        }
        k = k + 1;
    }
    assert(a@ =~= b@);
    true
}

pub fn terms_eq(a: &Vec<TagTerm>, b: &Vec<TagTerm>) -> (r: bool)
    ensures
        r == (terms_view(a@) == terms_view(b@)),
{
    if a.len() != b.len() {
        assert(terms_view(a@).len() != terms_view(b@).len());
        return false;
    }
    let mut k: usize = 0;
    while k < a.len()
        invariant
            k <= a.len() == b.len(),
            forall|j: int| 0 <= j < k ==> terms_view(a@)[j] == terms_view(b@)[j],
        decreases a.len() - k,
    {
        if !term_eq(&a[k], &b[k]) {
            assert(terms_view(a@)[k as int] != terms_view(b@)[k as int]);
            return false;
        }
        k = k + 1;
    }
    assert(terms_view(a@) =~= terms_view(b@));
    true
}

pub fn rule_eq(a: &TagRule, b: &TagRule) -> (r: bool)
    ensures
        r == (a@ == b@),
{
    terms_eq(&a.if_all, &b.if_all) && terms_eq(&a.then_all, &b.then_all)
}

// ------------------------------------------------------------- terms ----

fn has_term(v: &Vec<TagTerm>, t: &TagTerm) -> (b: bool)
    ensures
        b == terms_view(v@).contains(t@),
{
    let mut k: usize = 0;
    while k < v.len()
        invariant
            k <= v.len(),
            forall|j: int| 0 <= j < k ==> terms_view(v@)[j] != t@,
        decreases v.len() - k,
    {
        if term_eq(&v[k], t) {
            assert(terms_view(v@)[k as int] == t@);
            return true;
        }
        k = k + 1;
    }
    false
}

fn terms_without(v: &Vec<TagTerm>, t: &TagTerm) -> (r: Vec<TagTerm>)
    ensures
        terms_view(r@) == without(terms_view(v@), t@),
{
    let ghost s = terms_view(v@);
    let mut r: Vec<TagTerm> = Vec::new();
    let mut k: usize = 0;
    while k < v.len()
        invariant
            k <= v.len(),
            s == terms_view(v@),
            terms_view(r@) == without(s.take(k as int), t@),
        decreases v.len() - k,
    {
        assert(s.take(k + 1).drop_last() =~= s.take(k as int));
        if !term_eq(&v[k], t) {
            let ghost before = r@;
            r.push(v[k].copy());
            assert(terms_view(r@) =~= terms_view(before).push(s[k as int]));
        }
        k = k + 1;
    }
    assert(s.take(v.len() as int) =~= s);
    r
}

/// Subscription terms with `add` added entry by entry, and the terms that
/// were already there.
pub fn add_terms(cur: &Vec<TagTerm>, add: &Vec<TagTerm>) -> (r: (Vec<TagTerm>, Vec<TagTerm>))
    ensures
        (terms_view(r.0@), terms_view(r.1@)) == added(terms_view(cur@), terms_view(add@)),
{
    let ghost a = terms_view(add@);
    let mut out = crate::tag_rule::copy_terms(cur);
    let mut kept: Vec<TagTerm> = Vec::new();
    let mut k: usize = 0;
    while k < add.len()
        invariant
            k <= add.len(),
            a == terms_view(add@),
            (terms_view(out@), terms_view(kept@)) == added(terms_view(cur@), a.take(k as int)),
        decreases add.len() - k,
    {
        assert(a.take(k + 1).drop_last() =~= a.take(k as int));
        assert(a.take(k + 1).last() == add@[k as int]@);
        if has_term(&out, &add[k]) {
            let ghost before = kept@;
            kept.push(add[k].copy());
            assert(terms_view(kept@) =~= terms_view(before).push(add@[k as int]@));
        } else {
            let ghost before = out@;
            out.push(add[k].copy());
            assert(terms_view(out@) =~= terms_view(before).push(add@[k as int]@));
        }
        k = k + 1;
    }
    assert(a.take(add.len() as int) =~= a);
    (out, kept)
}

/// Subscription terms with `rem` removed entry by entry, and the terms
/// that were not there.
pub fn remove_terms(cur: &Vec<TagTerm>, rem: &Vec<TagTerm>) -> (r: (Vec<TagTerm>, Vec<TagTerm>))
    ensures
        (terms_view(r.0@), terms_view(r.1@)) == removed(terms_view(cur@), terms_view(rem@)),
{
    let ghost a = terms_view(rem@);
    let mut out = crate::tag_rule::copy_terms(cur);
    let mut missing: Vec<TagTerm> = Vec::new();
    let mut k: usize = 0;
    while k < rem.len()
        invariant
            k <= rem.len(),
            a == terms_view(rem@),
            (terms_view(out@), terms_view(missing@)) == removed(terms_view(cur@), a.take(k as int)),
        decreases rem.len() - k,
    {
        assert(a.take(k + 1).drop_last() =~= a.take(k as int));
        assert(a.take(k + 1).last() == rem@[k as int]@);
        if has_term(&out, &rem[k]) {
            out = terms_without(&out, &rem[k]);
        } else {
            let ghost before = missing@;
            missing.push(rem[k].copy());
            assert(terms_view(missing@) =~= terms_view(before).push(rem@[k as int]@));
        }
        k = k + 1;
    }
    assert(a.take(rem.len() as int) =~= a);
    (out, missing)
}

// -------------------------------------------------------------- tags ----

fn strings_without(v: &Vec<String>, t: &String) -> (r: Vec<String>)
    ensures
        views(r@) == without(views(v@), t@),
{
    let ghost s = views(v@);
    let mut r: Vec<String> = Vec::new();
    let mut k: usize = 0;
    while k < v.len()
        invariant
            k <= v.len(),
            s == views(v@),
            views(r@) == without(s.take(k as int), t@),
        decreases v.len() - k,
    {
        assert(s.take(k + 1).drop_last() =~= s.take(k as int));
        if !str_eq(v[k].as_str(), t.as_str()) {
            let ghost before = r@;
            r.push(v[k].clone());
            assert(views(r@) =~= views(before).push(s[k as int]));
        }
        k = k + 1;
    }
    assert(s.take(v.len() as int) =~= s);
    r
}

/// Tags with `add` added entry by entry, and the tags already there.
pub fn add_tags(cur: &Vec<String>, add: &Vec<String>) -> (r: (Vec<String>, Vec<String>))
    ensures
        (views(r.0@), views(r.1@)) == added(views(cur@), views(add@)),
{
    let ghost a = views(add@);
    let mut out = crate::text::clone_strings(cur);
    let mut kept: Vec<String> = Vec::new();
    let mut k: usize = 0;
    while k < add.len()
        invariant
            k <= add.len(),
            a == views(add@),
            (views(out@), views(kept@)) == added(views(cur@), a.take(k as int)),
        decreases add.len() - k,
    {
        assert(a.take(k + 1).drop_last() =~= a.take(k as int));
        assert(a.take(k + 1).last() == add@[k as int]@);
        if crate::text::contains_string(out.as_slice(), &add[k]) {
            let ghost before = kept@;
            kept.push(add[k].clone());
            assert(views(kept@) =~= views(before).push(add@[k as int]@));
        } else {
            let ghost before = out@;
            out.push(add[k].clone());
            assert(views(out@) =~= views(before).push(add@[k as int]@));
        }
        k = k + 1;
    }
    assert(a.take(add.len() as int) =~= a);
    (out, kept)
}

/// Tags with `rem` removed entry by entry, and the tags that were not
/// there.
pub fn remove_tags(cur: &Vec<String>, rem: &Vec<String>) -> (r: (Vec<String>, Vec<String>))
    ensures
        (views(r.0@), views(r.1@)) == removed(views(cur@), views(rem@)),
{
    let ghost a = views(rem@);
    let mut out = crate::text::clone_strings(cur);
    let mut missing: Vec<String> = Vec::new();
    let mut k: usize = 0;
    while k < rem.len()
        invariant
            k <= rem.len(),
            a == views(rem@),
            (views(out@), views(missing@)) == removed(views(cur@), a.take(k as int)),
        decreases rem.len() - k,
    {
        assert(a.take(k + 1).drop_last() =~= a.take(k as int));
        assert(a.take(k + 1).last() == rem@[k as int]@);
        if crate::text::contains_string(out.as_slice(), &rem[k]) {
            out = strings_without(&out, &rem[k]);
        } else {
            let ghost before = missing@;
            missing.push(rem[k].clone());
            assert(views(missing@) =~= views(before).push(rem@[k as int]@));
        }
        k = k + 1;
    }
    assert(a.take(rem.len() as int) =~= a);
    (out, missing)
}

// ------------------------------------------------------------ tag edit ----

/// How unchanged entries are reported: each term as printed, then each
/// forbidden tag as `-tag`.
pub open spec fn untouched_text(terms: Seq<Seq<Lit>>, tags: Seq<Seq<char>>) -> Seq<Seq<char>> {
    terms.map_values(|t: Seq<Lit>| term_text(t)) + tags.map_values(|g: Seq<char>| seq!['-'] + g)
}

/// A poster's tag lists after an edit, and what the edit left untouched.
pub struct TagEdit {
    pub subscribed: Vec<TagTerm>,
    pub forbidden: Vec<String>,
    /// Entries already there (adding) or not found (removing).
    pub untouched: Vec<String>,
}

/// Add (`add`) or remove the listed subscription terms and forbidden
/// tags; only the listed entries change.
pub fn edit_tags(
    subscribed: &Vec<TagTerm>,
    forbidden: &Vec<String>,
    terms: &Vec<TagTerm>,
    tags: &Vec<String>,
    add: bool,
) -> (r: TagEdit)
    ensures
        ({
            let t = if add { added(terms_view(subscribed@), terms_view(terms@)) } else { removed(terms_view(subscribed@), terms_view(terms@)) };
            let g = if add { added(views(forbidden@), views(tags@)) } else { removed(views(forbidden@), views(tags@)) };
            &&& terms_view(r.subscribed@) == t.0
            &&& views(r.forbidden@) == g.0
            &&& views(r.untouched@) == untouched_text(t.1, g.1)
        }),
{
    let (subscribed, missed_terms) = if add { add_terms(subscribed, terms) } else { remove_terms(subscribed, terms) };
    let (forbidden, missed_tags) = if add { add_tags(forbidden, tags) } else { remove_tags(forbidden, tags) };
    let ghost tv = terms_view(missed_terms@);
    let ghost gv = views(missed_tags@);
    let mut untouched: Vec<String> = Vec::new();
    let mut k: usize = 0;
    while k < missed_terms.len()
        invariant
            k <= missed_terms.len(),
            tv == terms_view(missed_terms@),
            views(untouched@) == tv.take(k as int).map_values(|t: Seq<Lit>| term_text(t)),
        decreases missed_terms.len() - k,
    {
        let ghost before = untouched@;
        untouched.push(missed_terms[k].to_string());
        assert(tv.take(k + 1) =~= tv.take(k as int).push(tv[k as int]));
        assert(views(untouched@) =~= views(before).push(term_text(tv[k as int])));
        assert(tv.take(k + 1).map_values(|t: Seq<Lit>| term_text(t))
            =~= tv.take(k as int).map_values(|t: Seq<Lit>| term_text(t)).push(term_text(tv[k as int])));
        k = k + 1;
    }
    assert(tv.take(missed_terms.len() as int) =~= tv);
    let ghost mid = views(untouched@);
    let mut j: usize = 0;
    while j < missed_tags.len()
        invariant
            j <= missed_tags.len(),
            gv == views(missed_tags@),
            views(untouched@) == mid + gv.take(j as int).map_values(|g: Seq<char>| seq!['-'] + g),
        decreases missed_tags.len() - j,
    {
        let ghost before = untouched@;
        let mut s = String::new();
        push_str(&mut s, "-");
        push_str(&mut s, missed_tags[j].as_str());
        assert("-"@ == seq!['-']) by {
            reveal_strlit("-");
        }
        untouched.push(s);
        assert(gv.take(j + 1) =~= gv.take(j as int).push(gv[j as int]));
        assert(views(untouched@) =~= views(before).push(seq!['-'] + gv[j as int]));
        assert(gv.take(j + 1).map_values(|g: Seq<char>| seq!['-'] + g)
            =~= gv.take(j as int).map_values(|g: Seq<char>| seq!['-'] + g).push(seq!['-'] + gv[j as int]));
        j = j + 1;
    }
    assert(gv.take(missed_tags.len() as int) =~= gv);
    TagEdit { subscribed, forbidden, untouched }
}

// --------------------------------------------------------------- rules ----

fn has_rule(v: &Vec<TagRule>, x: &TagRule) -> (b: bool)
    ensures
        b == rules_view(v@).contains(x@),
{
    let mut k: usize = 0;
    while k < v.len()
        invariant
            k <= v.len(),
            forall|j: int| 0 <= j < k ==> rules_view(v@)[j] != x@,
        decreases v.len() - k,
    {
        if rule_eq(&v[k], x) {
            assert(rules_view(v@)[k as int] == x@);
            return true;
        }
        k = k + 1;
    }
    false
}

/// Rules with `add` appended entry by entry, and the rules already there
/// (as printed).
pub fn add_rules(cur: &Vec<TagRule>, add: &Vec<TagRule>) -> (r: (Vec<TagRule>, Vec<String>))
    ensures
        rules_view(r.0@) == added(rules_view(cur@), rules_view(add@)).0,
        views(r.1@) == added(rules_view(cur@), rules_view(add@)).1.map_values(|x: RuleV| rule_text(x)),
{
    let ghost a = rules_view(add@);
    let mut out = crate::tag_rule::copy_rules(cur);
    let mut already: Vec<String> = Vec::new();
    let ghost mut kept: Seq<RuleV> = seq![];
    let mut k: usize = 0;
    while k < add.len()
        invariant
            k <= add.len(),
            a == rules_view(add@),
            (rules_view(out@), kept) == added(rules_view(cur@), a.take(k as int)),
            views(already@) == kept.map_values(|x: RuleV| rule_text(x)),
        decreases add.len() - k,
    {
        assert(a.take(k + 1).drop_last() =~= a.take(k as int));
        assert(a.take(k + 1).last() == add@[k as int]@);
        if has_rule(&out, &add[k]) {
            let ghost before = already@;
            already.push(add[k].to_string());
            proof {
                kept = kept.push(add@[k as int]@);
            }
            assert(views(already@) =~= views(before).push(rule_text(add@[k as int]@)));
            assert(kept.map_values(|x: RuleV| rule_text(x)) =~= views(before).push(rule_text(add@[k as int]@)));
        } else {
            let ghost before = out@;
            out.push(add[k].copy());
            assert(rules_view(out@) =~= rules_view(before).push(add@[k as int]@));
        }
        k = k + 1;
    }
    assert(a.take(add.len() as int) =~= a);
    (out, already)
}

/// What a rule number argument says: `Some(n)` for a number of at least 1.
pub open spec fn rule_number(raw: Seq<char>) -> Option<u64> {
    match crate::text::parse_u64_spec(raw) {
        Some(n) => if n >= 1 { Some(n) } else { None },
        None => None,
    }
}

pub open spec fn not_a_number_text(raw: Seq<char>) -> Seq<char> {
    "'"@ + raw + "' is not a rule number (1 = first rule)."@
}

/// `a` holds what `b` holds, and `n`.
pub open spec fn extends(a: Seq<u64>, b: Seq<u64>, n: u64) -> bool {
    forall|x: u64| a.contains(x) <==> (b.contains(x) || x == n)
}

/// Strictly increasing.
pub open spec fn increasing(ns: Seq<u64>) -> bool {
    forall|i: int, j: int| 0 <= i < j < ns.len() ==> ns[i] < ns[j]
}

/// The first argument that is no rule number, if any.
pub open spec fn first_bad(parts: Seq<Seq<char>>) -> int {
    crate::text::first_idx(0, parts.len() as int, |k: int| rule_number(parts[k]) is None)
}

/// Rule numbers as `/delrules` reads them (1 = first rule): every argument
/// must be one, and they come back ascending without repeats. An argument
/// that is no number is refused by name.
pub fn rule_numbers(parts: &Vec<String>) -> (r: Result<Vec<u64>, String>)
    ensures
        match r {
            Ok(ns) => first_bad(views(parts@)) == parts@.len()
                && increasing(ns@)
                && ns@.to_set() == Set::new(|n: u64| exists|k: int| 0 <= k < parts@.len() && rule_number(parts@[k]@) == Some(n)),
            Err(msg) => first_bad(views(parts@)) < parts@.len()
                && msg@ == not_a_number_text(parts@[first_bad(views(parts@))]@),
        },
{
    let ghost ps = views(parts@);
    let ghost bad = |k: int| rule_number(ps[k]) is None;
    let mut ns: Vec<u64> = Vec::new();
    let mut k: usize = 0;
    while k < parts.len()
        invariant
            k <= parts.len(),
            ps == views(parts@),
            bad == (|k: int| rule_number(ps[k]) is None),
            forall|q: int| 0 <= q < k ==> !#[trigger] bad(q),
            increasing(ns@),
            forall|n: u64| ns@.contains(n) <==> exists|q: int| 0 <= q < k && rule_number(parts@[q]@) == Some(n),
        decreases parts.len() - k,
    {
        let parsed = crate::text::parse_u64(parts[k].as_str());
        let n = match parsed {
            Some(n) if n >= 1 => n,
            _ => {
                assert(bad(k as int));
                proof {
                    crate::text::lemma_first_idx_is(0, k as int, ps.len() as int, bad);
                }
                let mut msg = String::new();
                push_str(&mut msg, "'");
                push_str(&mut msg, parts[k].as_str());
                push_str(&mut msg, "' is not a rule number (1 = first rule).");
                return Err(msg);
            },
        };
        assert(rule_number(parts@[k as int]@) == Some(n));
        // insert n in order, once
        let mut p: usize = 0;
        while p < ns.len() && ns[p] < n
            invariant
                p <= ns.len(),
                forall|i: int| 0 <= i < p ==> ns@[i] < n,
            decreases ns.len() - p,
        {
            p = p + 1;
        }
        let ghost old_ns = ns@;
        if p < ns.len() && ns[p] == n {
            assert(old_ns[p as int] == n);
            assert(old_ns.contains(n));
            assert(extends(ns@, old_ns, n));
        } else {
            let ghost before = ns@;
            ns.insert(p, n);
            assert(ns@ =~= before.take(p as int).push(n) + before.skip(p as int));
            assert forall|i: int, j: int| 0 <= i < j < ns@.len() implies ns@[i] < ns@[j] by {
                if j < p {
                    assert(ns@[i] == before[i] && ns@[j] == before[j]);
                } else if j == p {
                    assert(ns@[i] == before[i]);
                } else if i < p {
                    assert(ns@[i] == before[i] && ns@[j] == before[j - 1]);
                    assert(before[j - 1] >= n);
                } else if i == p {
                    assert(ns@[j] == before[j - 1]);
                    assert(before[j - 1] >= before[p as int]);
                } else {
                    assert(ns@[i] == before[i - 1] && ns@[j] == before[j - 1]);
                }
            }
            assert forall|x: u64| ns@.contains(x) <==> (old_ns.contains(x) || x == n) by {
                if ns@.contains(x) {
                    let i = choose|i: int| 0 <= i < ns@.len() && ns@[i] == x;
                    if i < p {
                        assert(before[i] == x);
                    } else if i > p {
                        assert(before[i - 1] == x);
                    }
                }
                if before.contains(x) {
                    let i = choose|i: int| 0 <= i < before.len() && before[i] == x;
                    if i < p {
                        assert(ns@[i] == x);
                    } else {
                        assert(ns@[i + 1] == x);
                    }
                }
                if x == n {
                    assert(ns@[p as int] == n);
                }
            }
            assert(extends(ns@, old_ns, n));
        }
        assert(extends(ns@, old_ns, n));
        assert forall|x: u64| ns@.contains(x) <==> exists|q: int| 0 <= q < k + 1 && rule_number(parts@[q]@) == Some(x) by {
            assert(ns@.contains(x) <==> (old_ns.contains(x) || x == n));
            if x == n {
                assert(rule_number(parts@[k as int]@) == Some(x));
            }
            if exists|q: int| 0 <= q < k + 1 && rule_number(parts@[q]@) == Some(x) {
                let q = choose|q: int| 0 <= q < k + 1 && rule_number(parts@[q]@) == Some(x);
                if q < k {
                    assert(exists|q2: int| 0 <= q2 < k && rule_number(parts@[q2]@) == Some(x));
                }
            }
        }
        assert(!bad(k as int)) by {
            assert(ps[k as int] == parts@[k as int]@);
        }
        k = k + 1;
    }
    proof {
        crate::text::lemma_first_idx_is(0, ps.len() as int, ps.len() as int, bad);
        assert(ns@.to_set() =~= Set::new(|n: u64| exists|k: int| 0 <= k < parts@.len() && rule_number(parts@[k]@) == Some(n)));
    }
    Ok(ns)
}

/// The rules whose number (1 = first) is not in `ns`, in order.
pub open spec fn kept_rules(rs: Seq<RuleV>, ns: Seq<u64>) -> Seq<RuleV>
    decreases rs.len(),
{
    if rs.len() == 0 {
        seq![]
    } else {
        let prev = kept_rules(rs.drop_last(), ns);
        if ns.contains(rs.len() as u64) { prev } else { prev.push(rs.last()) }
    }
}

/// The numbers of `ns` past the last rule, in order.
pub open spec fn beyond(ns: Seq<u64>, count: nat) -> Seq<u64>
    decreases ns.len(),
{
    if ns.len() == 0 {
        seq![]
    } else {
        let prev = beyond(ns.drop_last(), count);
        if ns.last() > count { prev.push(ns.last()) } else { prev }
    }
}

/// Drop the rules numbered in `ns` (1 = first rule); the numbers past the
/// last rule are reported.
pub fn drop_rules(rules: &Vec<TagRule>, ns: &Vec<u64>) -> (r: (Vec<TagRule>, Vec<u64>))
    ensures
        rules_view(r.0@) == kept_rules(rules_view(rules@), ns@),
        r.1@ == beyond(ns@, rules@.len()),
{
    let ghost rs = rules_view(rules@);
    let mut kept: Vec<TagRule> = Vec::new();
    let mut k: usize = 0;
    while k < rules.len()
        invariant
            k <= rules.len(),
            rs == rules_view(rules@),
            rules_view(kept@) == kept_rules(rs.take(k as int), ns@),
        decreases rules.len() - k,
    {
        assert(rs.take(k + 1).drop_last() =~= rs.take(k as int));
        assert(rs.take(k + 1).len() == k + 1);
        let number: u64 = (k as u64) + 1;
        let mut listed = false;
        let mut j: usize = 0;
        while j < ns.len()
            invariant
                j <= ns.len(),
                listed == exists|q: int| 0 <= q < j && ns@[q] == number,
            decreases ns.len() - j,
        {
            if ns[j] == number {
                listed = true;
            }
            j = j + 1;
        }
        assert(listed == ns@.contains(number));
        if !listed {
            let ghost before = kept@;
            kept.push(rules[k].copy());
            assert(rules_view(kept@) =~= rules_view(before).push(rs[k as int]));
        }
        k = k + 1;
    }
    assert(rs.take(rules.len() as int) =~= rs);
    let mut out: Vec<u64> = Vec::new();
    let mut i: usize = 0;
    while i < ns.len()
        invariant
            i <= ns.len(),
            out@ == beyond(ns@.take(i as int), rules@.len()),
        decreases ns.len() - i,
    {
        assert(ns@.take(i + 1).drop_last() =~= ns@.take(i as int));
        if ns[i] > rules.len() as u64 {
            out.push(ns[i]);
        }
        i = i + 1;
    }
    assert(ns@.take(ns.len() as int) =~= ns@);
    (kept, out)
}

// ---------------------------------------------------------------- laws ----

/// Adding changes only the listed entries: the old list stays in front,
/// in order, and an entry ends up present exactly when it was there or
/// was listed; the reported entries are listed ones, present anyway.
pub proof fn lemma_adding_keeps_the_rest<A>(cur: Seq<A>, add: Seq<A>)
    ensures
        added(cur, add).0.len() >= cur.len(),
        added(cur, add).0.take(cur.len() as int) == cur,
        forall|x: A| added(cur, add).0.contains(x) <==> (cur.contains(x) || add.contains(x)),
        forall|x: A| added(cur, add).1.contains(x) ==> add.contains(x) && added(cur, add).0.contains(x),
    decreases add.len(),
{
    if add.len() == 0 {
        assert(cur.take(cur.len() as int) =~= cur);
    } else {
        let rest = add.drop_last();
        lemma_adding_keeps_the_rest(cur, rest);
        let r = added(cur, rest).0;
        let u = added(cur, rest).1;
        let x = add.last();
        let now = added(cur, add);
        assert(x == add[add.len() - 1]);
        assert forall|y: A| rest.contains(y) implies add.contains(y) by {
            let i = choose|i: int| 0 <= i < rest.len() && rest[i] == y;
            assert(add[i] == y);
        }
        assert forall|y: A| add.contains(y) implies rest.contains(y) || y == x by {
            let i = choose|i: int| 0 <= i < add.len() && add[i] == y;
            if i < rest.len() {
                assert(rest[i] == y);
            }
        }
        if r.contains(x) {
            assert(now.0 == r);
            assert(now.1 == u.push(x));
            assert forall|y: A| now.1.contains(y) implies add.contains(y) && now.0.contains(y) by {
                let i = choose|i: int| 0 <= i < u.push(x).len() && u.push(x)[i] == y;
                if i < u.len() {
                    assert(u[i] == y);
                    assert(u.contains(y));
                } else {
                    assert(y == x);
                }
            }
        } else {
            assert(now.0 == r.push(x));
            assert(now.1 == u);
            assert(r.push(x).take(cur.len() as int) =~= r.take(cur.len() as int));
            assert forall|y: A| r.push(x).contains(y) <==> (r.contains(y) || y == x) by {
                if r.push(x).contains(y) {
                    let i = choose|i: int| 0 <= i < r.push(x).len() && r.push(x)[i] == y;
                    if i < r.len() {
                        assert(r[i] == y);
                    }
                }
                if r.contains(y) {
                    let i = choose|i: int| 0 <= i < r.len() && r[i] == y;
                    assert(r.push(x)[i] == y);
                }
                assert(r.push(x)[r.len() as int] == x);
            }
        }
    }
}

/// Removing changes only the listed entries: an entry stays exactly when it
/// was there and was not listed; the reported entries are listed ones,
/// absent afterwards.
pub proof fn lemma_removing_keeps_the_rest<A>(cur: Seq<A>, rem: Seq<A>)
    ensures
        forall|x: A| removed(cur, rem).0.contains(x) <==> (cur.contains(x) && !rem.contains(x)),
        forall|x: A| removed(cur, rem).1.contains(x) ==> rem.contains(x) && !removed(cur, rem).0.contains(x),
    decreases rem.len(),
{
    if rem.len() > 0 {
        let rest = rem.drop_last();
        lemma_removing_keeps_the_rest(cur, rest);
        let r = removed(cur, rest).0;
        let u = removed(cur, rest).1;
        let x = rem.last();
        let now = removed(cur, rem);
        assert(x == rem[rem.len() - 1]);
        assert forall|y: A| rest.contains(y) implies rem.contains(y) by {
            let i = choose|i: int| 0 <= i < rest.len() && rest[i] == y;
            assert(rem[i] == y);
        }
        assert forall|y: A| rem.contains(y) implies rest.contains(y) || y == x by {
            let i = choose|i: int| 0 <= i < rem.len() && rem[i] == y;
            if i < rest.len() {
                assert(rest[i] == y);
            }
        }
        assert forall|y: A| now.0.contains(y) <==> (cur.contains(y) && !rem.contains(y)) by {
            lemma_without_contains(r, x, y);
        }
        if r.contains(x) {
            assert(now.1 == u);
        } else {
            assert(now.1 == u.push(x));
            assert forall|y: A| now.1.contains(y) implies rem.contains(y) && !now.0.contains(y) by {
                let i = choose|i: int| 0 <= i < u.push(x).len() && u.push(x)[i] == y;
                if i < u.len() {
                    assert(u[i] == y);
                    assert(u.contains(y));
                } else {
                    assert(y == x);
                }
            }
        }
    }
}

pub proof fn lemma_without_contains<A>(s: Seq<A>, x: A, y: A)
    ensures
        without(s, x).contains(y) <==> (s.contains(y) && y != x),
    decreases s.len(),
{
    if s.len() > 0 {
        let rest = s.drop_last();
        lemma_without_contains(rest, x, y);
        let prev = without(rest, x);
        if rest.contains(y) {
            let i = choose|i: int| 0 <= i < rest.len() && rest[i] == y;
            assert(s[i] == y);
        }
        if s.contains(y) {
            let i = choose|i: int| 0 <= i < s.len() && s[i] == y;
            if i < rest.len() {
                assert(rest[i] == y);
            }
        }
        if s.last() != x {
            if prev.push(s.last()).contains(y) {
                let i = choose|i: int| 0 <= i < prev.push(s.last()).len() && prev.push(s.last())[i] == y;
                if i < prev.len() {
                    assert(prev[i] == y);
                }
            }
            if prev.contains(y) {
                let i = choose|i: int| 0 <= i < prev.len() && prev[i] == y;
                assert(prev.push(s.last())[i] == y);
            }
            assert(prev.push(s.last())[prev.len() as int] == s.last());
        }
    }
}

} // verus!
