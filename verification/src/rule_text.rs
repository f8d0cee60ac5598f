//! The text form of tag terms and rules is also their storage form: what is
//! printed reads back as the same terms and rules.

use vstd::prelude::*;
use crate::tag_rule::{
    arrow_at, group_spec, lit_spec, lit_text, parse_all_spec, parse_list_spec, rule_spec, rule_text, rule_text_of, rules_from,
    term_text, terms_from, terms_text, Lit, RuleV,
};
use crate::text::{
    char_at, find_char, first_idx, has_char, is_ws, join, lemma_first_idx, lemma_first_idx_is, next_ws, skip_ws, trim_end, trimmed,
};

verus! {

/// A tag name that prints and reads back unchanged: not empty, with no
/// whitespace and no parenthesis.
pub open spec fn word_ok(w: Seq<char>) -> bool {
    &&& w.len() > 0
    &&& forall|k: int| 0 <= k < w.len() ==> !is_ws(#[trigger] w[k]) && w[k] != '(' && w[k] != ')'
}

/// A literal that prints and reads back unchanged: a well-formed name,
/// which for a required tag does not itself start with `-`.
pub open spec fn lit_ok(l: Lit) -> bool {
    &&& word_ok(l.1)
    &&& !l.0 ==> l.1[0] != '-'
}

pub open spec fn term_ok(t: Seq<Lit>) -> bool {
    &&& t.len() > 0
    &&& forall|q: int| 0 <= q < t.len() ==> lit_ok(#[trigger] t[q])
}

pub open spec fn terms_ok(ts: Seq<Seq<Lit>>) -> bool {
    forall|q: int| 0 <= q < ts.len() ==> term_ok(#[trigger] ts[q])
}

/// A joined list read from the front: its first part, then the separator
/// and the rest.
pub proof fn lemma_join_front(parts: Seq<Seq<char>>, sep: Seq<char>)
    requires
        parts.len() >= 1,
    ensures
        join(parts, sep) == (if parts.len() == 1 { parts[0] } else { parts[0] + sep + join(parts.drop_first(), sep) }),
    decreases parts.len(),
{
    if parts.len() >= 3 {
        let dl = parts.drop_last();
        let df = parts.drop_first();
        lemma_join_front(dl, sep);
        assert(dl.drop_first() =~= df.drop_last());
        assert(df.last() == parts.last());
        assert(dl[0] == parts[0]);
        assert(join(parts, sep) == join(dl, sep) + sep + parts.last());
        assert(join(dl, sep) == parts[0] + sep + join(dl.drop_first(), sep));
        assert(join(df, sep) == join(df.drop_last(), sep) + sep + df.last());
        assert(join(parts, sep) =~= parts[0] + sep + join(df, sep));
    } else if parts.len() == 2 {
        let dl = parts.drop_last();
        let df = parts.drop_first();
        assert(dl[0] == parts[0]);
        assert(df[0] == parts[1]);
        assert(join(dl, sep) == parts[0]);
        assert(join(df, sep) == parts[1]);
        assert(join(parts, sep) == join(dl, sep) + sep + parts.last());
    }
}

/// No character of a joined list has property `p` when no part and no
/// separator character has it.
pub proof fn lemma_join_chars(parts: Seq<Seq<char>>, sep: Seq<char>, p: spec_fn(char) -> bool)
    requires
        forall|i: int, k: int| 0 <= i < parts.len() && 0 <= k < parts[i].len() ==> !p(#[trigger] parts[i][k]),
        forall|k: int| 0 <= k < sep.len() ==> !p(#[trigger] sep[k]),
    ensures
        forall|k: int| 0 <= k < join(parts, sep).len() ==> !p(#[trigger] join(parts, sep)[k]),
    decreases parts.len(),
{
    if parts.len() >= 2 {
        let rest = parts.drop_last();
        assert forall|i: int, k: int| 0 <= i < rest.len() && 0 <= k < rest[i].len() implies !p(#[trigger] rest[i][k]) by {
            assert(rest[i] == parts[i]);
        }
        lemma_join_chars(rest, sep, p);
        let a = join(rest, sep);
        let x = parts.last();
        let j = join(parts, sep);
        assert forall|k: int| 0 <= k < j.len() implies !p(#[trigger] j[k]) by {
            if k < a.len() {
                assert(j[k] == a[k]);
            } else if k < a.len() + sep.len() {
                assert(j[k] == sep[k - a.len()]);
            } else {
                assert(j[k] == x[k - a.len() - sep.len()]);
                assert(parts[parts.len() - 1] == x);
            }
        }
    } else if parts.len() == 1 {
        assert forall|k: int| 0 <= k < parts[0].len() implies !p(#[trigger] parts[0][k]) by {}
    }
}

/// Skipping whitespace from `i0` stops at `i`.
pub proof fn lemma_skip_to(s: Seq<char>, i0: int, i: int, end: int)
    requires
        i0 <= i <= end,
        forall|k: int| i0 <= k < i ==> is_ws(#[trigger] s[k]),
        i == end || !is_ws(s[i]),
    ensures
        skip_ws(s, i0, end) == i,
{
    lemma_first_idx_is(i0, i, end, |k: int| !is_ws(s[k]));
}

/// A word without whitespace, followed by whitespace or the end, ends
/// where the next whitespace is.
pub proof fn lemma_word_end(s: Seq<char>, j: int, end: int, w: Seq<char>)
    requires
        0 <= j,
        j + w.len() <= end <= s.len(),
        s.subrange(j, j + w.len()) == w,
        forall|k: int| 0 <= k < w.len() ==> !is_ws(#[trigger] w[k]),
        j + w.len() == end || is_ws(s[j + w.len()]),
    ensures
        next_ws(s, j, end) == j + w.len(),
{
    assert forall|k: int| j <= k < j + w.len() implies !is_ws(#[trigger] s[k]) by {
        assert(s[k] == s.subrange(j, j + w.len())[k - j]);
    }
    lemma_first_idx_is(j, j + w.len(), end, |k: int| is_ws(s[k]));
}

/// The characters of a literal's text: never whitespace or a parenthesis,
/// and never empty.
pub proof fn lemma_lit_text(l: Lit)
    requires
        lit_ok(l),
    ensures
        lit_text(l).len() > 0,
        forall|k: int| 0 <= k < lit_text(l).len() ==>
            !is_ws(#[trigger] lit_text(l)[k]) && lit_text(l)[k] != '(' && lit_text(l)[k] != ')',
        lit_spec(lit_text(l)) == Ok::<Lit, crate::tag_rule::TagRuleParseError>(l),
{
    let w = lit_text(l);
    if l.0 {
        assert forall|k: int| 0 <= k < w.len() implies !is_ws(#[trigger] w[k]) && w[k] != '(' && w[k] != ')' by {
            if k > 0 {
                assert(w[k] == l.1[k - 1]);
            }
        }
        assert(w.drop_first() =~= l.1);
    }
}

/// The literal texts of a term.
pub open spec fn lit_texts(t: Seq<Lit>) -> Seq<Seq<char>> {
    t.map_values(|l: Lit| lit_text(l))
}

/// Reading back the inside of a printed group, starting at `i0` before any
/// whitespace that leads to it.
pub proof fn lemma_group_reads_back(s: Seq<char>, i0: int, i: int, end: int, ls: Seq<Lit>)
    requires
        0 <= i0 <= i <= end <= s.len(),
        forall|k: int| i0 <= k < i ==> is_ws(#[trigger] s[k]),
        forall|q: int| 0 <= q < ls.len() ==> lit_ok(#[trigger] ls[q]),
        s.subrange(i, end) == join(lit_texts(ls), seq![' ']),
    ensures
        group_spec(s, i0, end) == Ok::<Seq<Lit>, crate::tag_rule::TagRuleParseError>(ls),
    decreases ls.len(),
{
    if ls.len() == 0 {
        assert(s.subrange(i, end).len() == 0);
        assert(ls =~= seq![]);
        if i0 < end {
            lemma_skip_to(s, i0, end, end);
        }
    } else {
        let parts = lit_texts(ls);
        let w = parts[0];
        lemma_lit_text(ls[0]);
        lemma_join_front(parts, seq![' ']);
        let m = i + w.len();
        let whole = join(parts, seq![' ']);
        assert(whole.len() >= w.len());
        assert(s.subrange(i, end).len() == end - i);
        assert(m <= end);
        assert(s.subrange(i, m) =~= w) by {
            assert forall|k: int| 0 <= k < w.len() implies s.subrange(i, m)[k] == w[k] by {
                assert(s.subrange(i, m)[k] == s[i + k]);
                assert(s.subrange(i, end)[k] == s[i + k]);
                assert(whole[k] == w[k]);
            }
        }
        assert(s[i] == w[0]) by {
            assert(s.subrange(i, m)[0] == s[i]);
        }
        lemma_skip_to(s, i0, i, end);
        let rest = ls.drop_first();
        assert(lit_texts(rest) =~= parts.drop_first());
        if ls.len() == 1 {
            assert(m == end);
        } else {
            let tail = join(parts.drop_first(), seq![' ']);
            assert(whole == w + seq![' '] + tail);
            assert(m + 1 + tail.len() == end);
            assert(s[m] == ' ') by {
                assert(s.subrange(i, end)[w.len() as int] == s[m]);
                assert(whole[w.len() as int] == ' ');
            }
            assert(s.subrange(m + 1, end) =~= tail) by {
                assert forall|k: int| 0 <= k < tail.len() implies s.subrange(m + 1, end)[k] == tail[k] by {
                    assert(s.subrange(m + 1, end)[k] == s[m + 1 + k]);
                    assert(s.subrange(i, end)[w.len() + 1 + k] == s[m + 1 + k]);
                    assert(whole[w.len() + 1 + k] == tail[k]);
                }
            }
        }
        lemma_word_end(s, i, end, w);
        assert(skip_ws(s, i0, end) == i);
        assert(next_ws(s, i, end) == m);
        assert(s.subrange(i, next_ws(s, i, end)) == w);
        assert(lit_spec(s.subrange(i, m)) == Ok::<Lit, crate::tag_rule::TagRuleParseError>(ls[0]));
        assert(i0 < end);
        if ls.len() == 1 {
            assert(group_spec(s, m, end) == Ok::<Seq<Lit>, crate::tag_rule::TagRuleParseError>(seq![]));
            assert(seq![ls[0]] + seq![] =~= ls);
            assert(group_spec(s, i0, end) == Ok::<Seq<Lit>, crate::tag_rule::TagRuleParseError>(seq![ls[0]] + seq![]));
        } else {
            assert(forall|q: int| 0 <= q < rest.len() ==> rest[q] == ls[q + 1]);
            assert(forall|k: int| m <= k < m + 1 ==> is_ws(#[trigger] s[k]));
            lemma_group_reads_back(s, m, m + 1, end, rest);
            assert(seq![ls[0]] + rest =~= ls);
            assert(group_spec(s, i0, end) == Ok::<Seq<Lit>, crate::tag_rule::TagRuleParseError>(seq![ls[0]] + rest));
        }
    }
}

/// The term texts of a list.
pub open spec fn term_texts(ts: Seq<Seq<Lit>>) -> Seq<Seq<char>> {
    ts.map_values(|t: Seq<Lit>| term_text(t))
}

/// Facts about a printed term: it starts with a non-space character,
/// with `(` exactly when it is a group, and a group's inside holds no
/// parenthesis.
pub proof fn lemma_term_text(t: Seq<Lit>)
    requires
        term_ok(t),
    ensures
        term_text(t).len() > 0,
        !is_ws(term_text(t)[0]),
        t.len() == 1 ==> term_text(t)[0] != '(' && term_text(t) == lit_text(t[0]),
        t.len() != 1 ==> term_text(t)[0] == '(' && term_text(t) == seq!['('] + join(lit_texts(t), seq![' ']) + seq![')'],
        t.len() != 1 ==> forall|k: int| 0 <= k < join(lit_texts(t), seq![' ']).len() ==>
            #[trigger] join(lit_texts(t), seq![' '])[k] != '(' && join(lit_texts(t), seq![' '])[k] != ')',
{
    if t.len() == 1 {
        lemma_lit_text(t[0]);
    } else {
        let parts = lit_texts(t);
        let p = |c: char| c == '(' || c == ')';
        assert forall|i: int, k: int| 0 <= i < parts.len() && 0 <= k < parts[i].len() implies !p(#[trigger] parts[i][k]) by {
            lemma_lit_text(t[i]);
        }
        assert forall|k: int| 0 <= k < seq![' '].len() implies !p(#[trigger] seq![' '][k]) by {}
        lemma_join_chars(parts, seq![' '], p);
        let inner = join(parts, seq![' ']);
        assert forall|k: int| 0 <= k < inner.len() implies #[trigger] inner[k] != '(' && inner[k] != ')' by {
            assert(!p(inner[k]));
        }
    }
}

/// Reading back a printed term list from `i0`, before any whitespace that
/// leads to it.
pub proof fn lemma_terms_read_back(s: Seq<char>, i0: int, i: int, ts: Seq<Seq<Lit>>)
    requires
        0 <= i0 <= i <= s.len(),
        forall|k: int| i0 <= k < i ==> is_ws(#[trigger] s[k]),
        terms_ok(ts),
        s.subrange(i, s.len() as int) == join(term_texts(ts), seq![' ']),
    ensures
        terms_from(s, i0) == Ok::<Seq<Seq<Lit>>, crate::tag_rule::TagRuleParseError>(ts),
    decreases ts.len(),
{
    let n = s.len() as int;
    if ts.len() == 0 {
        assert(s.subrange(i, n).len() == 0);
        assert(ts =~= seq![]);
        if i0 < n {
            lemma_skip_to(s, i0, n, n);
        }
    } else {
        let parts = term_texts(ts);
        let t0 = ts[0];
        let tt = parts[0];
        lemma_term_text(t0);
        lemma_join_front(parts, seq![' ']);
        let m = i + tt.len();
        let whole = join(parts, seq![' ']);
        assert(whole.len() >= tt.len());
        assert(s.subrange(i, n).len() == n - i);
        assert(m <= n);
        assert forall|k: int| 0 <= k < tt.len() implies s[i + k] == #[trigger] tt[k] by {
            assert(s.subrange(i, n)[k] == s[i + k]);
            assert(whole[k] == tt[k]);
        }
        assert(s.subrange(i, m) =~= tt) by {
            assert forall|k: int| 0 <= k < tt.len() implies s.subrange(i, m)[k] == tt[k] by {
                assert(s.subrange(i, m)[k] == s[i + k]);
            }
        }
        lemma_skip_to(s, i0, i, n);
        let rest = ts.drop_first();
        assert(term_texts(rest) =~= parts.drop_first());
        assert(terms_ok(rest)) by {
            assert forall|q: int| 0 <= q < rest.len() implies term_ok(#[trigger] rest[q]) by {
                assert(rest[q] == ts[q + 1]);
            }
        }
        if ts.len() == 1 {
            assert(m == n);
            assert(rest.len() == 0);
            assert(s.subrange(n, n) =~= join(term_texts(rest), seq![' ']));
            lemma_terms_read_back(s, n, n, rest);
        } else {
            let tail = join(parts.drop_first(), seq![' ']);
            assert(whole == tt + seq![' '] + tail);
            assert(m + 1 + tail.len() == n);
            assert(s[m] == ' ') by {
                assert(s.subrange(i, n)[tt.len() as int] == s[m]);
                assert(whole[tt.len() as int] == ' ');
            }
            assert(s.subrange(m + 1, n) =~= tail) by {
                assert forall|k: int| 0 <= k < tail.len() implies s.subrange(m + 1, n)[k] == tail[k] by {
                    assert(s.subrange(m + 1, n)[k] == s[m + 1 + k]);
                    assert(s.subrange(i, n)[tt.len() + 1 + k] == s[m + 1 + k]);
                    assert(whole[tt.len() + 1 + k] == tail[k]);
                }
            }
            assert(forall|k: int| m <= k < m + 1 ==> is_ws(#[trigger] s[k]));
            lemma_terms_read_back(s, m, m + 1, rest);
        }
        assert(terms_from(s, m) == Ok::<Seq<Seq<Lit>>, crate::tag_rule::TagRuleParseError>(rest));
        assert(skip_ws(s, i0, n) == i);
        assert(i0 < n);
        if t0.len() == 1 {
            let w = lit_text(t0[0]);
            lemma_lit_text(t0[0]);
            lemma_word_end(s, i, n, w);
            assert(tt == w);
            assert(next_ws(s, i, n) == m);
            assert(s.subrange(i, m) == w);
            assert(s[i] != '(');
            assert(!has_char(w, '(') && !has_char(w, ')'));
            assert(lit_spec(w) == Ok::<Lit, crate::tag_rule::TagRuleParseError>(t0[0]));
            assert(seq![seq![t0[0]]] + rest =~= ts) by {
                assert(seq![t0[0]] =~= t0);
            }
            assert(terms_from(s, i0) == Ok::<Seq<Seq<Lit>>, crate::tag_rule::TagRuleParseError>(seq![seq![t0[0]]] + rest));
        } else {
            let inner = join(lit_texts(t0), seq![' ']);
            let close = m - 1;
            assert(s[close] == ')') by {
                assert(tt[tt.len() - 1] == ')');
            }
            assert forall|q: int| i + 1 <= q < close implies s[q] != ')' by {
                assert(s[q] == tt[q - i]);
                assert(tt[q - i] == inner[q - i - 1]);
            }
            lemma_first_idx_is(i + 1, close, n, crate::text::char_at(s, ')'));
            assert(find_char(s, i + 1, n, ')') == close);
            assert(s.subrange(i + 1, close) =~= inner) by {
                assert forall|k: int| 0 <= k < inner.len() implies s.subrange(i + 1, close)[k] == inner[k] by {
                    assert(s.subrange(i + 1, close)[k] == s[i + 1 + k]);
                    assert(tt[k + 1] == inner[k]);
                }
            }
            assert(!has_char(s.subrange(i + 1, close), '('));
            lemma_group_reads_back(s, i + 1, i + 1, close, t0);
            assert(s[i] == '(');
            assert(close + 1 == m);
            assert(seq![t0] + rest =~= ts);
            assert(terms_from(s, i0) == Ok::<Seq<Seq<Lit>>, crate::tag_rule::TagRuleParseError>(seq![t0] + rest));
        }
    }
}

/// A well-formed term list printed and read back is the same list.
pub proof fn lemma_terms_roundtrip(ts: Seq<Seq<Lit>>)
    requires
        terms_ok(ts),
    ensures
        parse_list_spec(terms_text(ts)) == Ok::<Seq<Seq<Lit>>, crate::tag_rule::TagRuleParseError>(ts),
{
    let s = terms_text(ts);
    assert(term_texts(ts) == ts.map_values(|t: Seq<Lit>| term_text(t)));
    assert(s.subrange(0, s.len() as int) =~= s);
    lemma_terms_read_back(s, 0, 0, ts);
}

/// No tag name of the terms holds a `]`.
pub open spec fn no_bracket(ts: Seq<Seq<Lit>>) -> bool {
    forall|q: int, i: int, k: int| 0 <= q < ts.len() && 0 <= i < ts[q].len() && 0 <= k < ts[q][i].1.len()
        ==> #[trigger] ts[q][i].1[k] != ']'
}

/// A rule that prints and reads back unchanged: both sides non-empty and
/// well-formed, and no tag name holding a `]`.
pub open spec fn rule_ok(r: RuleV) -> bool {
    &&& r.0.len() > 0 && terms_ok(r.0) && no_bracket(r.0)
    &&& r.1.len() > 0 && terms_ok(r.1) && no_bracket(r.1)
}

/// A printed term list holds no `]` when its tag names hold none.
pub proof fn lemma_terms_text_no_bracket(ts: Seq<Seq<Lit>>)
    requires
        no_bracket(ts),
    ensures
        forall|k: int| 0 <= k < terms_text(ts).len() ==> #[trigger] terms_text(ts)[k] != ']',
{
    let p = |c: char| c == ']';
    let parts = term_texts(ts);
    assert forall|q: int, k: int| 0 <= q < parts.len() && 0 <= k < parts[q].len() implies !p(#[trigger] parts[q][k]) by {
        let t = ts[q];
        let lits = lit_texts(t);
        assert forall|i: int, j: int| 0 <= i < lits.len() && 0 <= j < lits[i].len() implies !p(#[trigger] lits[i][j]) by {
            let l = t[i];
            if l.0 {
                if j > 0 {
                    assert(lits[i][j] == l.1[j - 1]);
                }
            } else {
                assert(lits[i][j] == l.1[j]);
            }
        }
        assert forall|j: int| 0 <= j < seq![' '].len() implies !p(#[trigger] seq![' '][j]) by {}
        lemma_join_chars(lits, seq![' '], p);
        if t.len() != 1 {
            let inner = join(lits, seq![' ']);
            let tt = seq!['('] + inner + seq![')'];
            assert(parts[q] == tt);
            if 0 < k < tt.len() - 1 {
                assert(tt[k] == inner[k - 1]);
            }
        } else {
            assert(parts[q] == lits[0]);
        }
    }
    assert forall|j: int| 0 <= j < seq![' '].len() implies !p(#[trigger] seq![' '][j]) by {}
    lemma_join_chars(parts, seq![' '], p);
    assert(terms_text(ts) == join(parts, seq![' ']));
    assert forall|k: int| 0 <= k < terms_text(ts).len() implies #[trigger] terms_text(ts)[k] != ']' by {
        assert(!p(join(parts, seq![' '])[k]));
    }
}

/// A well-formed rule printed and read back is the same rule.
pub proof fn lemma_rule_roundtrip(r: RuleV)
    requires
        rule_ok(r),
    ensures
        rule_spec(rule_text(r)) == Ok::<RuleV, crate::tag_rule::TagRuleParseError>(r),
{
    let left = terms_text(r.0);
    let right = terms_text(r.1);
    let t = rule_text(r);
    let n = t.len() as int;
    let a = left.len() as int;
    assert(t == seq!['['] + left + seq![']', '-', '>', '['] + right + seq![']']);
    assert(n == a + right.len() + 6);
    assert(t[0] == '[');
    assert(t[n - 1] == ']');
    lemma_skip_to(t, 0, 0, n);
    assert(trim_end(t, 0, n) == n);
    assert(t.subrange(0, n) =~= t);
    assert(trimmed(t) == t);
    lemma_terms_text_no_bracket(r.0);
    lemma_terms_text_no_bracket(r.1);
    assert forall|k: int| 1 <= k < 1 + a implies !#[trigger] arrow_at(t)(k) by {
        assert(t[k] == left[k - 1]);
    }
    assert(t[1 + a] == ']' && t[2 + a] == '-' && t[3 + a] == '>' && t[4 + a] == '[');
    assert(arrow_at(t)(1 + a));
    lemma_first_idx_is(1, 1 + a, n - 3, arrow_at(t));
    assert(t.subrange(1, 1 + a) =~= left);
    assert(t.subrange(a + 5, n - 1) =~= right);
    lemma_terms_roundtrip(r.0);
    lemma_terms_roundtrip(r.1);
}


// ------------------------------------------------------ parsed lists ----

/// A word read between whitespace from `s[j..end)` is a well-formed
/// literal when it holds no parenthesis, and none of its name's characters
/// is `c` when `s` holds no `c` there.
proof fn lemma_word_lit(s: Seq<char>, j: int, end: int, c: Option<char>)
    requires
        0 <= j < end <= s.len(),
        !is_ws(s[j]),
        forall|k: int| j <= k < end ==> Some(#[trigger] s[k]) != c,
        !has_char(s.subrange(j, next_ws(s, j, end)), '('),
        !has_char(s.subrange(j, next_ws(s, j, end)), ')'),
    ensures
        j < next_ws(s, j, end) <= end,
        lit_spec(s.subrange(j, next_ws(s, j, end))) matches Ok(l) ==> lit_ok(l)
            && forall|k: int| 0 <= k < l.1.len() ==> Some(#[trigger] l.1[k]) != c,
{
    let e = next_ws(s, j, end);
    let p = |k: int| is_ws(s[k]);
    lemma_first_idx(j, end, p);
    let w = s.subrange(j, e);
    assert forall|k: int| 0 <= k < w.len() implies !is_ws(#[trigger] w[k]) && w[k] != '(' && w[k] != ')' && Some(w[k]) != c by {
        assert(!p(j + k));
        assert(w[k] == s[j + k]);
        if w[k] == '(' {
            assert(has_char(w, '('));
        }
        if w[k] == ')' {
            assert(has_char(w, ')'));
        }
    }
    if w[0] == '-' && w.len() > 1 {
        let d = w.drop_first();
        assert forall|k: int| 0 <= k < d.len() implies !is_ws(#[trigger] d[k]) && d[k] != '(' && d[k] != ')' && Some(d[k]) != c by {
            assert(d[k] == w[k + 1]);
        }
    }
}

/// The literals of a group whose text holds no parenthesis are well formed,
/// and their names hold no `c` when the text holds none.
proof fn lemma_group_ok(s: Seq<char>, i: int, end: int, c: Option<char>)
    requires
        0 <= i,
        end <= s.len(),
        forall|k: int| i <= k < end ==> #[trigger] s[k] != '(' && s[k] != ')' && Some(s[k]) != c,
    ensures
        group_spec(s, i, end) matches Ok(ls) ==> forall|q: int| 0 <= q < ls.len() ==> lit_ok(#[trigger] ls[q])
            && forall|k: int| 0 <= k < ls[q].1.len() ==> Some(#[trigger] ls[q].1[k]) != c,
    decreases end - i,
{
    if i < end {
        let j = skip_ws(s, i, end);
        lemma_first_idx(i, end, |k: int| !is_ws(s[k]));
        if j < end {
            let e = next_ws(s, j, end);
            lemma_first_idx(j, end, |k: int| is_ws(s[k]));
            let w = s.subrange(j, e);
            assert(!has_char(w, '(')) by {
                if has_char(w, '(') {
                    let k = choose|k: int| 0 <= k < w.len() && w[k] == '(';
                    assert(w[k] == s[j + k]);
                }
            }
            assert(!has_char(w, ')')) by {
                if has_char(w, ')') {
                    let k = choose|k: int| 0 <= k < w.len() && w[k] == ')';
                    assert(w[k] == s[j + k]);
                }
            }
            lemma_word_lit(s, j, end, c);
            if e > i && e <= end {
                lemma_group_ok(s, e, end, c);
            }
        }
    }
}

/// What a list parse reads from `s[i..)`: well-formed terms whose names
/// hold no `c` when `s` holds none, and no terms only when the rest of
/// `s` is blank.
proof fn lemma_terms_ok(s: Seq<char>, i: int, c: Option<char>)
    requires
        0 <= i,
        c != Some('(') && c != Some(')'),
        forall|k: int| i <= k < s.len() ==> Some(#[trigger] s[k]) != c,
    ensures
        terms_from(s, i) matches Ok(ts) ==> terms_ok(ts) && no_char(ts, c)
            && (ts.len() == 0 ==> forall|k: int| i <= k < s.len() ==> is_ws(#[trigger] s[k])),
    decreases s.len() - i,
{
    let n = s.len() as int;
    if i < n {
        let j = skip_ws(s, i, n);
        let pn = |k: int| !is_ws(s[k]);
        lemma_first_idx(i, n, pn);
        if j >= n {
            assert forall|k: int| i <= k < n implies is_ws(#[trigger] s[k]) by {
                assert(!pn(k));
            }
        }
        if j < n && j >= i {
            if s[j] == '(' {
                let k = find_char(s, j + 1, n, ')');
                lemma_first_idx(j + 1, n, char_at(s, ')'));
                if k < n && !has_char(s.subrange(j + 1, k), '(') {
                    assert forall|m: int| j + 1 <= m < k implies #[trigger] s[m] != '(' && s[m] != ')' && Some(s[m]) != c by {
                        assert(!char_at(s, ')')(m));
                        assert(s.subrange(j + 1, k)[m - (j + 1)] == s[m]);
                    }
                    lemma_group_ok(s, j + 1, k, c);
                    lemma_terms_ok(s, k + 1, c);
                    if let Ok(ts) = terms_from(s, i) {
                        let g = group_spec(s, j + 1, k)->Ok_0;
                        let rest = terms_from(s, k + 1)->Ok_0;
                        assert(ts == seq![g] + rest);
                        assert forall|q: int| 0 <= q < ts.len() implies term_ok(#[trigger] ts[q]) by {
                            if q > 0 {
                                assert(ts[q] == rest[q - 1]);
                            }
                        }
                        assert forall|q: int, p: int, m: int| 0 <= q < ts.len() && 0 <= p < ts[q].len() && 0 <= m < ts[q][p].1.len()
                            implies Some(#[trigger] ts[q][p].1[m]) != c by {
                            if q > 0 {
                                assert(ts[q] == rest[q - 1]);
                            }
                        }
                    }
                }
            } else {
                let e = next_ws(s, j, n);
                lemma_first_idx(j, n, |k: int| is_ws(s[k]));
                let w = s.subrange(j, e);
                if !has_char(w, '(') && !has_char(w, ')') {
                    lemma_word_lit(s, j, n, c);
                    lemma_terms_ok(s, e, c);
                    if let Ok(ts) = terms_from(s, i) {
                        let l = lit_spec(w)->Ok_0;
                        let rest = terms_from(s, e)->Ok_0;
                        assert(ts == seq![seq![l]] + rest);
                        assert forall|q: int| 0 <= q < ts.len() implies term_ok(#[trigger] ts[q]) by {
                            if q > 0 {
                                assert(ts[q] == rest[q - 1]);
                            } else {
                                assert(ts[0] == seq![l]);
                            }
                        }
                        assert forall|q: int, p: int, m: int| 0 <= q < ts.len() && 0 <= p < ts[q].len() && 0 <= m < ts[q][p].1.len()
                            implies Some(#[trigger] ts[q][p].1[m]) != c by {
                            if q > 0 {
                                assert(ts[q] == rest[q - 1]);
                            }
                        }
                    }
                }
            }
        }
    }
}

/// No tag name of the terms holds the character `c` names.
pub open spec fn no_char(ts: Seq<Seq<Lit>>, c: Option<char>) -> bool {
    forall|q: int, i: int, k: int| 0 <= q < ts.len() && 0 <= i < ts[q].len() && 0 <= k < ts[q][i].1.len()
        ==> Some(#[trigger] ts[q][i].1[k]) != c
}

/// Every term list that parses prints and parses back unchanged. What
/// parses is well formed: each term non-empty, each tag name non-empty and
/// free of whitespace and parentheses; and the list is empty exactly when
/// the text is blank.
pub proof fn lemma_parsed_list_roundtrip(s: Seq<char>)
    requires
        parse_list_spec(s) is Ok,
    ensures
        terms_ok(parse_list_spec(s)->Ok_0),
        parse_list_spec(terms_text(parse_list_spec(s)->Ok_0)) == parse_list_spec(s),
        parse_list_spec(s)->Ok_0.len() == 0 <==> forall|k: int| 0 <= k < s.len() ==> is_ws(#[trigger] s[k]),
{
    lemma_terms_ok(s, 0, None);
    let ts = parse_list_spec(s)->Ok_0;
    lemma_terms_roundtrip(ts);
    if forall|k: int| 0 <= k < s.len() ==> is_ws(#[trigger] s[k]) {
        crate::tag_rule::lemma_blank_list(s);
    }
}


// ------------------------------------------------------- rule lists ----

/// Rules in their storage form: each printed, joined by single spaces.
pub open spec fn rules_text(rs: Seq<RuleV>) -> Seq<char> {
    join(rs.map_values(|r: RuleV| rule_text(r)), seq![' '])
}

/// `[x]->[y]` read as a rule, where neither side holds a `]`, gives a
/// well-formed rule.
proof fn lemma_rule_of_sides_ok(x: Seq<char>, y: Seq<char>)
    requires
        forall|k: int| 0 <= k < x.len() ==> #[trigger] x[k] != ']',
        forall|k: int| 0 <= k < y.len() ==> #[trigger] y[k] != ']',
    ensures
        rule_spec(rule_text_of(x, y)) matches Ok(r) ==> rule_ok(r),
{
    let u = rule_text_of(x, y);
    let m = u.len() as int;
    let a = x.len() as int;
    assert(m == a + y.len() + 6);
    assert(u[0] == '[');
    assert(u[m - 1] == ']');
    lemma_skip_to(u, 0, 0, m);
    assert(trim_end(u, 0, m) == m);
    assert(u.subrange(0, m) =~= u);
    assert(trimmed(u) == u);
    assert forall|k: int| 1 <= k < 1 + a implies !#[trigger] arrow_at(u)(k) by {
        assert(u[k] == x[k - 1]);
    }
    assert(u[1 + a] == ']' && u[2 + a] == '-' && u[3 + a] == '>' && u[4 + a] == '[');
    assert(arrow_at(u)(1 + a));
    lemma_first_idx_is(1, 1 + a, m - 3, arrow_at(u));
    assert(u.subrange(1, 1 + a) =~= x);
    assert(u.subrange(a + 5, m - 1) =~= y);
    lemma_terms_ok(x, 0, Some(']'));
    lemma_terms_ok(y, 0, Some(']'));
}

/// Every rule that a rule list parse reads from `t[i..)` is well formed.
proof fn lemma_rules_ok(t: Seq<char>, i: int)
    ensures
        rules_from(t, i) matches Ok(rs) ==> forall|q: int| 0 <= q < rs.len() ==> rule_ok(#[trigger] rs[q]),
    decreases t.len() - i,
{
    let m = t.len() as int;
    if 0 <= i < m && t[i] == '[' {
        let c = find_char(t, i + 1, m, ']');
        lemma_first_idx(i + 1, m, char_at(t, ']'));
        if i <= c < m && c + 3 < m {
            let c2 = find_char(t, c + 4, m, ']');
            lemma_first_idx(c + 4, m, char_at(t, ']'));
            if c + 4 <= c2 < m {
                let x = t.subrange(i + 1, c);
                let y = t.subrange(c + 4, c2);
                assert forall|k: int| 0 <= k < x.len() implies #[trigger] x[k] != ']' by {
                    assert(x[k] == t[i + 1 + k]);
                    assert(!char_at(t, ']')(i + 1 + k));
                }
                assert forall|k: int| 0 <= k < y.len() implies #[trigger] y[k] != ']' by {
                    assert(y[k] == t[c + 4 + k]);
                    assert(!char_at(t, ']')(c + 4 + k));
                }
                lemma_rule_of_sides_ok(x, y);
                let next = skip_ws(t, c2 + 1, m);
                lemma_first_idx(c2 + 1, m, |k: int| !is_ws(t[k]));
                if i < next {
                    lemma_rules_ok(t, next);
                }
                if let Ok(rs) = rules_from(t, i) {
                    if rs.len() > 0 {
                        let r = rule_spec(rule_text_of(x, y))->Ok_0;
                        assert(rs[0] == r);
                        assert forall|q: int| 0 <= q < rs.len() implies rule_ok(#[trigger] rs[q]) by {
                            if q > 0 {
                                assert(rs[q] == rules_from(t, next)->Ok_0[q - 1]);
                            }
                        }
                    }
                }
            }
        }
    }
}

/// A space-joined list of well-formed rules standing at `t[i0..)` reads
/// back as the same rules.
proof fn lemma_rules_read_back(t: Seq<char>, i0: int, rs: Seq<RuleV>)
    requires
        0 <= i0 <= t.len(),
        rs.len() > 0,
        forall|q: int| 0 <= q < rs.len() ==> rule_ok(#[trigger] rs[q]),
        t.subrange(i0, t.len() as int) == rules_text(rs),
    ensures
        rules_from(t, i0) == Ok::<Seq<RuleV>, crate::tag_rule::TagRuleParseError>(rs),
    decreases rs.len(),
{
    let m = t.len() as int;
    let r = rs[0];
    assert(rule_ok(r));
    let left = terms_text(r.0);
    let right = terms_text(r.1);
    let a = left.len() as int;
    let b = right.len() as int;
    let rt = rule_text(r);
    let parts = rs.map_values(|r: RuleV| rule_text(r));
    lemma_join_front(parts, seq![' ']);
    assert(parts[0] == rt);
    assert(parts.drop_first() =~= rs.drop_first().map_values(|r: RuleV| rule_text(r)));
    let whole = t.subrange(i0, m);
    assert(rt.len() == a + b + 6);
    if parts.len() == 1 {
        assert(whole == rt);
    } else {
        assert(whole == rt + seq![' '] + rules_text(rs.drop_first()));
    }
    assert(rt.len() <= whole.len());
    assert forall|k: int| 0 <= k < rt.len() implies t[i0 + k] == #[trigger] rt[k] by {
        assert(whole[k] == rt[k]);
        assert(whole[k] == t[i0 + k]);
    }
    assert(rt == seq!['['] + left + seq![']', '-', '>', '['] + right + seq![']']);
    lemma_terms_text_no_bracket(r.0);
    lemma_terms_text_no_bracket(r.1);
    assert(t[i0] == rt[0]);
    assert forall|k: int| i0 + 1 <= k < i0 + 1 + a implies !#[trigger] char_at(t, ']')(k) by {
        assert(t[k] == rt[k - i0]);
        assert(rt[k - i0] == left[k - i0 - 1]);
    }
    assert(t[i0 + 1 + a] == rt[1 + a]);
    lemma_first_idx_is(i0 + 1, i0 + 1 + a, m, char_at(t, ']'));
    let c = i0 + 1 + a;
    assert(t[c + 1] == rt[a + 2] && t[c + 2] == rt[a + 3] && t[c + 3] == rt[a + 4]);
    assert forall|k: int| c + 4 <= k < c + 4 + b implies !#[trigger] char_at(t, ']')(k) by {
        assert(t[k] == rt[k - i0]);
        assert(rt[k - i0] == right[k - c - 4]);
    }
    assert(t[c + 4 + b] == rt[a + b + 5]);
    lemma_first_idx_is(c + 4, c + 4 + b, m, char_at(t, ']'));
    let c2 = c + 4 + b;
    assert(t.subrange(i0 + 1, c) =~= left) by {
        assert forall|k: int| 0 <= k < a implies t.subrange(i0 + 1, c)[k] == left[k] by {
            assert(t[i0 + 1 + k] == rt[1 + k]);
        }
    }
    assert(t.subrange(c + 4, c2) =~= right) by {
        assert forall|k: int| 0 <= k < b implies t.subrange(c + 4, c2)[k] == right[k] by {
            assert(t[c + 4 + k] == rt[a + 5 + k]);
        }
    }
    assert(rule_text_of(left, right) =~= rt);
    lemma_rule_roundtrip(r);
    if rs.len() == 1 {
        assert(whole == rt);
        assert(c2 + 1 == m);
        lemma_skip_to(t, m, m, m);
        assert(rs =~= seq![r]);
    } else {
        let rest = rs.drop_first();
        assert(whole == rt + seq![' '] + rules_text(rest));
        assert(t[c2 + 1] == whole[rt.len() as int]);
        let rt2 = rules_text(rest);
        let parts2 = rest.map_values(|r: RuleV| rule_text(r));
        lemma_join_front(parts2, seq![' ']);
        assert(parts2[0] == rule_text(rest[0]));
        assert(rule_text(rest[0])[0] == '[');
        assert(rt2[0] == '[') by {
            if parts2.len() > 1 {
                assert(rt2 == parts2[0] + seq![' '] + join(parts2.drop_first(), seq![' ']));
            }
        }
        assert(t[c2 + 2] == whole[rt.len() as int + 1]);
        lemma_skip_to(t, c2 + 1, c2 + 2, m);
        assert(t.subrange(c2 + 2, m) =~= rt2) by {
            assert forall|k: int| 0 <= k < rt2.len() implies t.subrange(c2 + 2, m)[k] == rt2[k] by {
                assert(whole[rt.len() as int + 1 + k] == t[i0 + rt.len() + 1 + k]);
            }
        }
        assert forall|q: int| 0 <= q < rest.len() implies rule_ok(#[trigger] rest[q]) by {
            assert(rest[q] == rs[q + 1]);
        }
        lemma_rules_read_back(t, c2 + 2, rest);
        assert(seq![r] + rest =~= rs);
    }
}

/// Several well-formed rules, printed and joined by spaces (their storage
/// form), read back as the same rules.
pub proof fn lemma_rules_roundtrip(rs: Seq<RuleV>)
    requires
        forall|q: int| 0 <= q < rs.len() ==> rule_ok(#[trigger] rs[q]),
    ensures
        parse_all_spec(rules_text(rs)) == Ok::<Seq<RuleV>, crate::tag_rule::TagRuleParseError>(rs),
{
    let t = rules_text(rs);
    let n = t.len() as int;
    if rs.len() == 0 {
        assert(t.len() == 0);
        lemma_skip_to(t, 0, 0, 0);
        assert(trimmed(t) =~= t);
        assert(rs =~= Seq::<RuleV>::empty());
    } else {
        let parts = rs.map_values(|r: RuleV| rule_text(r));
        lemma_join_front(parts, seq![' ']);
        lemma_join_back(parts, seq![' ']);
        assert(parts[0] == rule_text(rs[0]));
        assert(parts[parts.len() - 1] == rule_text(rs[rs.len() - 1]));
        assert(t[0] == '[');
        assert(t[n - 1] == ']');
        lemma_skip_to(t, 0, 0, n);
        assert(trim_end(t, 0, n) == n);
        assert(t.subrange(0, n) =~= t);
        assert(trimmed(t) == t);
        lemma_rules_read_back(t, 0, rs);
    }
}

/// The last character of a joined list is that of its last part.
proof fn lemma_join_back(parts: Seq<Seq<char>>, sep: Seq<char>)
    requires
        parts.len() >= 1,
        parts.last().len() >= 1,
    ensures
        join(parts, sep).len() >= 1,
        join(parts, sep).last() == parts.last().last(),
{
}

/// Every rule list that parses is well formed (each side a non-empty list
/// of well-formed terms, no tag name holding a bracket), so its storage
/// form reads back as the same rules.
pub proof fn lemma_parsed_rules_roundtrip(s: Seq<char>)
    requires
        parse_all_spec(s) is Ok,
    ensures
        forall|q: int| 0 <= q < parse_all_spec(s)->Ok_0.len() ==> rule_ok(#[trigger] parse_all_spec(s)->Ok_0[q]),
        parse_all_spec(rules_text(parse_all_spec(s)->Ok_0)) == parse_all_spec(s),
{
    lemma_rules_ok(trimmed(s), 0);
    lemma_rules_roundtrip(parse_all_spec(s)->Ok_0);
}

} // verus!
