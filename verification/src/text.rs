//! Character-level helpers shared by the parsers and caption builders.

use vstd::prelude::*;
use vstd::string::*;

verus! {

broadcast use vstd::string::group_string_axioms;

/// Unicode `White_Space`, the property behind `char::is_whitespace`.
pub open spec fn is_ws(c: char) -> bool {
    ||| ('\t' <= c && c <= '\r')
    ||| c == ' '
    ||| c == '\u{85}'
    ||| c == '\u{A0}'
    ||| c == '\u{1680}'
    ||| ('\u{2000}' <= c && c <= '\u{200A}')
    ||| c == '\u{2028}'
    ||| c == '\u{2029}'
    ||| c == '\u{202F}'
    ||| c == '\u{205F}'
    ||| c == '\u{3000}'
}

pub fn is_whitespace(c: char) -> (b: bool)
    ensures
        b == is_ws(c),
{
    ('\t' <= c && c <= '\r') || c == ' ' || c == '\u{85}' || c == '\u{A0}' || c == '\u{1680}'
        || ('\u{2000}' <= c && c <= '\u{200A}') || c == '\u{2028}' || c == '\u{2029}'
        || c == '\u{202F}' || c == '\u{205F}' || c == '\u{3000}'
}

/// The characters of a string slice, in order.
pub fn chars_of(s: &str) -> (v: Vec<char>)
    ensures
        v@ == s@,
{
    let mut v: Vec<char> = Vec::new();
    for c in it: s.chars()
        invariant
            v@ == it.seq().take(it.index()),
    {
        v.push(c);
    }
    v
}


/// The first index `k` in `[i, end)` at which `p` holds, or `end` when there
/// is none.
pub open spec fn first_idx(i: int, end: int, p: spec_fn(int) -> bool) -> int
    decreases end - i,
{
    if i >= end {
        end
    } else if p(i) {
        i
    } else {
        first_idx(i + 1, end, p)
    }
}

pub proof fn lemma_first_idx(i: int, end: int, p: spec_fn(int) -> bool)
    requires
        i <= end,
    ensures
        i <= first_idx(i, end, p) <= end,
        first_idx(i, end, p) < end ==> p(first_idx(i, end, p)),
        forall|k: int| i <= k < first_idx(i, end, p) ==> !#[trigger] p(k),
    decreases end - i,
{
    if i < end && !p(i) {
        lemma_first_idx(i + 1, end, p);
    }
}

pub proof fn lemma_first_idx_is(i: int, j: int, end: int, p: spec_fn(int) -> bool)
    requires
        i <= j <= end,
        forall|k: int| i <= k < j ==> !#[trigger] p(k),
        j == end || p(j),
    ensures
        first_idx(i, end, p) == j,
    decreases j - i,
{
    if i < j {
        lemma_first_idx_is(i + 1, j, end, p);
    }
}

/// Index of the first non-whitespace character of `s` in `[i, end)`.
pub open spec fn skip_ws(s: Seq<char>, i: int, end: int) -> int {
    first_idx(i, end, |k: int| !is_ws(s[k]))
}

/// Index of the first whitespace character of `s` in `[i, end)`.
pub open spec fn next_ws(s: Seq<char>, i: int, end: int) -> int {
    first_idx(i, end, |k: int| is_ws(s[k]))
}

/// Index of the first `c` in `s[i..end)`.
pub open spec fn find_char(s: Seq<char>, i: int, end: int, c: char) -> int {
    first_idx(i, end, char_at(s, c))
}

pub open spec fn char_at(s: Seq<char>, c: char) -> spec_fn(int) -> bool {
    |k: int| s[k] == c
}

pub open spec fn has_char(s: Seq<char>, c: char) -> bool {
    exists|k: int| 0 <= k < s.len() && s[k] == c
}

pub fn skip_whitespace(s: &Vec<char>, i: usize, end: usize) -> (j: usize)
    requires
        i <= end <= s.len(),
    ensures
        j == skip_ws(s@, i as int, end as int),
        i <= j <= end,
        j < end ==> !is_ws(s@[j as int]),
{
    let mut j = i;
    while j < end && is_whitespace(s[j])
        invariant
            i <= j <= end <= s.len(),
            forall|k: int| i <= k < j ==> is_ws(s@[k]),
        decreases end - j,
    {
        j = j + 1;
    }
    proof {
        lemma_first_idx_is(i as int, j as int, end as int, |k: int| !is_ws(s@[k]));
    }
    j
}

pub fn next_whitespace(s: &Vec<char>, i: usize, end: usize) -> (j: usize)
    requires
        i <= end <= s.len(),
    ensures
        j == next_ws(s@, i as int, end as int),
        i <= j <= end,
        j < end ==> is_ws(s@[j as int]),
        forall|k: int| i <= k < j ==> !is_ws(s@[k]),
{
    let mut j = i;
    while j < end && !is_whitespace(s[j])
        invariant
            i <= j <= end <= s.len(),
            forall|k: int| i <= k < j ==> !is_ws(s@[k]),
        decreases end - j,
    {
        j = j + 1;
    }
    proof {
        lemma_first_idx_is(i as int, j as int, end as int, |k: int| is_ws(s@[k]));
    }
    j
}

pub fn find(s: &Vec<char>, i: usize, end: usize, c: char) -> (j: usize)
    requires
        i <= end <= s.len(),
    ensures
        j == find_char(s@, i as int, end as int, c),
        i <= j <= end,
        j < end ==> s@[j as int] == c,
        forall|k: int| i <= k < j ==> s@[k] != c,
{
    let mut j = i;
    while j < end && s[j] != c
        invariant
            i <= j <= end <= s.len(),
            forall|k: int| i <= k < j ==> s@[k] != c,
        decreases end - j,
    {
        j = j + 1;
    }
    proof {
        let p = char_at(s@, c);
        assert forall|k: int| i <= k < j implies !#[trigger] p(k) by {}
        lemma_first_idx_is(i as int, j as int, end as int, p);
    }
    j
}

pub fn contains_char(s: &Vec<char>, i: usize, end: usize, c: char) -> (b: bool)
    requires
        i <= end <= s.len(),
    ensures
        b == has_char(s@.subrange(i as int, end as int), c),
{
    let j = find(s, i, end, c);
    proof {
        let sub = s@.subrange(i as int, end as int);
        if j < end {
            assert(sub[j - i] == c);
        } else {
            assert forall|k: int| 0 <= k < sub.len() implies sub[k] != c by {
                assert(sub[k] == s@[i + k]);
            }
        }
    }
    j < end
}

/// `String::push`.
#[verifier::external_body]
pub(crate) fn push_char(s: &mut String, c: char)
    ensures
        final(s)@ == old(s)@.push(c),
{
    s.push(c);
}

/// The characters `v[a..b)` as a string.
pub fn string_of(v: &Vec<char>, a: usize, b: usize) -> (s: String)
    requires
        a <= b <= v.len(),
    ensures
        s@ == v@.subrange(a as int, b as int),
{
    let mut s = String::new();
    let mut k = a;
    while k < b
        invariant
            a <= k <= b <= v.len(),
            s@ == v@.subrange(a as int, k as int),
        decreases b - k,
    {
        push_char(&mut s, v[k]);
        assert(v@.subrange(a as int, k + 1) == v@.subrange(a as int, k as int).push(v@[k as int]));
        k = k + 1;
    }
    s
}

/// `s` followed by `t`.
pub fn push_str(s: &mut String, t: &str)
    ensures
        final(s)@ == old(s)@ + t@,
{
    s.append(t);
}


/// One past the last non-whitespace character of `s[a..b)`, or `a`.
pub open spec fn trim_end(s: Seq<char>, a: int, b: int) -> int
    decreases b - a,
{
    if b <= a {
        a
    } else if !is_ws(s[b - 1]) {
        b
    } else {
        trim_end(s, a, b - 1)
    }
}

/// `str::trim`: `s` without leading and trailing whitespace.
pub open spec fn trimmed(s: Seq<char>) -> Seq<char> {
    let a = skip_ws(s, 0, s.len() as int);
    s.subrange(a, trim_end(s, a, s.len() as int))
}

/// The bounds `[a, b)` of the trimmed part of `v`.
pub fn trim_bounds(v: &Vec<char>) -> (r: (usize, usize))
    ensures
        r.0 <= r.1 <= v.len(),
        v@.subrange(r.0 as int, r.1 as int) == trimmed(v@),
{
    let n = v.len();
    let a = skip_whitespace(v, 0, n);
    let mut b = n;
    while b > a && is_whitespace(v[b - 1])
        invariant
            a <= b <= n == v.len(),
            trim_end(v@, a as int, b as int) == trim_end(v@, a as int, n as int),
        decreases b - a,
    {
        b = b - 1;
    }
    (a, b)
}

/// `v[a..b)` as a vector of its own.
pub fn sub_vec(v: &Vec<char>, a: usize, b: usize) -> (r: Vec<char>)
    requires
        a <= b <= v.len(),
    ensures
        r@ == v@.subrange(a as int, b as int),
{
    let mut r: Vec<char> = Vec::new();
    let mut k = a;
    while k < b
        invariant
            a <= k <= b <= v.len(),
            r@ == v@.subrange(a as int, k as int),
        decreases b - k,
    {
        r.push(v[k]);
        assert(v@.subrange(a as int, k + 1) == v@.subrange(a as int, k as int).push(v@[k as int]));
        k = k + 1;
    }
    r
}

/// `v[a..b)` appended to `r`.
pub fn extend_from(r: &mut Vec<char>, v: &Vec<char>, a: usize, b: usize)
    requires
        a <= b <= v.len(),
    ensures
        final(r)@ == old(r)@ + v@.subrange(a as int, b as int),
{
    let ghost start = r@;
    let mut k = a;
    while k < b
        invariant
            a <= k <= b <= v.len(),
            r@ == start + v@.subrange(a as int, k as int),
        decreases b - k,
    {
        r.push(v[k]);
        assert(start + v@.subrange(a as int, k + 1) =~= (start + v@.subrange(a as int, k as int)).push(v@[k as int]));
        k = k + 1;
    }
}


/// `parts` joined by `sep` (`[a, b, c]` reads `a sep b sep c`).
pub open spec fn join(parts: Seq<Seq<char>>, sep: Seq<char>) -> Seq<char>
    decreases parts.len(),
{
    if parts.len() == 0 {
        seq![]
    } else if parts.len() == 1 {
        parts[0]
    } else {
        join(parts.drop_last(), sep) + sep + parts.last()
    }
}

pub proof fn lemma_join_push(parts: Seq<Seq<char>>, x: Seq<char>, sep: Seq<char>)
    ensures
        join(parts.push(x), sep) == if parts.len() == 0 { x } else { join(parts, sep) + sep + x },
{
    assert(parts.push(x).drop_last() =~= parts);
}

/// The parts joined with `sep` between them.
pub fn join_with(parts: &Vec<String>, sep: &str) -> (s: String)
    ensures
        s@ == join(views(parts@), sep@),
{
    let ghost ps = views(parts@);
    let mut s = String::new();
    let mut k: usize = 0;
    while k < parts.len()
        invariant
            k <= parts.len(),
            ps == views(parts@),
            s@ == join(ps.take(k as int), sep@),
        decreases parts.len() - k,
    {
        proof {
            lemma_join_push(ps.take(k as int), ps[k as int], sep@);
            assert(ps.take(k + 1) =~= ps.take(k as int).push(ps[k as int]));
        }
        if k > 0 {
            push_str(&mut s, sep);
        }
        push_str(&mut s, parts[k].as_str());
        k = k + 1;
    }
    assert(ps.take(parts.len() as int) =~= ps);
    s
}

/// The characters of `cs` appended to `s`.
pub fn push_chars(s: &mut String, cs: &[char])
    ensures
        final(s)@ == old(s)@ + cs@,
{
    let ghost start = s@;
    let mut k: usize = 0;
    while k < cs.len()
        invariant
            k <= cs.len(),
            s@ == start + cs@.take(k as int),
        decreases cs.len() - k,
    {
        push_char(s, cs[k]);
        assert(start + cs@.take(k + 1) =~= (start + cs@.take(k as int)).push(cs@[k as int]));
        k = k + 1;
    }
    assert(cs@.take(cs.len() as int) =~= cs@);
}


/// `char::to_ascii_lowercase`.
pub open spec fn lower_char(c: char) -> char {
    if 'A' <= c && c <= 'Z' { ((c as u32) + 32) as char } else { c }
}

/// `str::to_ascii_lowercase`.
pub open spec fn lower(s: Seq<char>) -> Seq<char> {
    s.map_values(|c: char| lower_char(c))
}

pub fn lowercase_char(c: char) -> (r: char)
    ensures
        r == lower_char(c),
{
    if 'A' <= c && c <= 'Z' {
        ((c as u8) + 32) as char
    } else {
        c
    }
}

/// `s` in ASCII lowercase.
pub fn lowercase(s: &str) -> (r: Vec<char>)
    ensures
        r@ == lower(s@),
{
    let v = chars_of(s);
    let mut r: Vec<char> = Vec::new();
    let mut k: usize = 0;
    while k < v.len()
        invariant
            k <= v.len(),
            v@ == s@,
            r@ == lower(v@.take(k as int)),
        decreases v.len() - k,
    {
        r.push(lowercase_char(v[k]));
        assert(lower(v@.take(k + 1)) =~= lower(v@.take(k as int)).push(lower_char(v@[k as int])));
        k = k + 1;
    }
    assert(v@.take(v.len() as int) =~= v@);
    r
}

/// `v` starts with `prefix`.
pub fn starts_with(v: &Vec<char>, prefix: &[char]) -> (b: bool)
    ensures
        b == (prefix@.len() <= v@.len() && v@.take(prefix@.len() as int) == prefix@),
{
    if prefix.len() > v.len() {
        return false;
    }
    let mut k: usize = 0;
    while k < prefix.len()
        invariant
            k <= prefix.len() <= v.len(),
            forall|i: int| 0 <= i < k ==> v@[i] == prefix@[i],
        decreases prefix.len() - k,
    {
        if v[k] != prefix[k] {
            assert(v@.take(prefix@.len() as int)[k as int] != prefix@[k as int]);
            return false;
        }
        k = k + 1;
    }
    assert(v@.take(prefix@.len() as int) =~= prefix@);
    true
}

/// The decimal digit `d` as a character.
pub open spec fn digit_char(d: nat) -> char {
    ((d + 48) as u32) as char
}

/// The decimal representation of `n`.
pub open spec fn decimal(n: nat) -> Seq<char>
    decreases n,
{
    if n < 10 {
        seq![digit_char(n)]
    } else {
        decimal(n / 10).push(digit_char(n % 10))
    }
}

/// The decimal representation of a signed integer.
pub open spec fn signed_decimal(n: int) -> Seq<char> {
    if n < 0 { seq!['-'] + decimal((-n) as nat) } else { decimal(n as nat) }
}

/// `n` in decimal, appended to `s`.
pub fn push_decimal(s: &mut String, n: u64)
    ensures
        final(s)@ == old(s)@ + decimal(n as nat),
    decreases n,
{
    if n >= 10 {
        push_decimal(s, n / 10);
    }
    let d = (n % 10) as u8;
    push_char(s, (d + 48) as char);
    proof {
        if n >= 10 {
            assert(old(s)@ + decimal(n as nat) =~= old(s)@ + decimal((n / 10) as nat) + seq![digit_char((n % 10) as nat)]);
        } else {
            assert(old(s)@ + decimal(n as nat) =~= old(s)@.push(digit_char(n as nat)));
        }
    }
}

/// `n` in decimal (with a leading `-` when negative), appended to `s`.
pub fn push_signed_decimal(s: &mut String, n: i64)
    ensures
        final(s)@ == old(s)@ + signed_decimal(n as int),
{
    if n < 0 {
        push_char(s, '-');
        let m: u64 = (-(n as i128)) as u64;
        push_decimal(s, m);
        assert(old(s)@ + signed_decimal(n as int) =~= old(s)@.push('-') + decimal(m as nat));
    } else {
        push_decimal(s, n as u64);
    }
}

/// HTML text escaping of one character.
pub open spec fn escape_char(c: char) -> Seq<char> {
    if c == '&' {
        seq!['&', 'a', 'm', 'p', ';']
    } else if c == '<' {
        seq!['&', 'l', 't', ';']
    } else if c == '>' {
        seq!['&', 'g', 't', ';']
    } else {
        seq![c]
    }
}

/// Minimal HTML escaping: `&`, `<` and `>` become entities.
pub open spec fn escape_html_spec(s: Seq<char>) -> Seq<char>
    decreases s.len(),
{
    if s.len() == 0 {
        seq![]
    } else {
        escape_html_spec(s.drop_last()) + escape_char(s.last())
    }
}

/// Decoding `&lt;`, `&gt;` and `&amp;`, left to right.
pub open spec fn unescape_spec(t: Seq<char>) -> Seq<char>
    decreases t.len(),
{
    if t.len() == 0 {
        seq![]
    } else if t.len() >= 4 && t.take(4) == seq!['&', 'l', 't', ';'] {
        seq!['<'] + unescape_spec(t.skip(4))
    } else if t.len() >= 4 && t.take(4) == seq!['&', 'g', 't', ';'] {
        seq!['>'] + unescape_spec(t.skip(4))
    } else if t.len() >= 5 && t.take(5) == seq!['&', 'a', 'm', 'p', ';'] {
        seq!['&'] + unescape_spec(t.skip(5))
    } else {
        seq![t[0]] + unescape_spec(t.skip(1))
    }
}

proof fn lemma_escape_front(s: Seq<char>)
    requires
        s.len() > 0,
    ensures
        escape_html_spec(s) == escape_char(s[0]) + escape_html_spec(s.drop_first()),
    decreases s.len(),
{
    if s.len() == 1 {
        assert(s.drop_last() =~= Seq::<char>::empty());
        assert(s.drop_first() =~= Seq::<char>::empty());
        assert(escape_html_spec(Seq::<char>::empty()) == Seq::<char>::empty());
        assert(escape_char(s[0]) + Seq::<char>::empty() =~= escape_char(s[0]));
    } else {
        lemma_escape_front(s.drop_last());
        assert(s.drop_last().drop_first() =~= s.drop_first().drop_last());
        assert(s.drop_first().last() == s.last());
        assert(s.drop_last()[0] == s[0]);
    }
}

/// Escaped text holds no angle bracket, and decoding the entities gives
/// the raw text back.
pub proof fn lemma_escape_html(s: Seq<char>)
    ensures
        !escape_html_spec(s).contains('<'),
        !escape_html_spec(s).contains('>'),
        unescape_spec(escape_html_spec(s)) == s,
    decreases s.len(),
{
    if s.len() == 0 {
        assert(escape_html_spec(s) =~= Seq::<char>::empty());
        assert(unescape_spec(Seq::<char>::empty()) =~= Seq::<char>::empty());
    } else {
        lemma_escape_html(s.drop_last());
        lemma_escape_html(s.drop_first());
        lemma_escape_front(s);
        let e = escape_char(s[0]);
        let rest = escape_html_spec(s.drop_first());
        let whole = e + rest;
        assert(!escape_html_spec(s).contains('<')) by {
            let prev = escape_html_spec(s.drop_last());
            let last = escape_char(s.last());
            assert(escape_html_spec(s) == prev + last);
            if escape_html_spec(s).contains('<') {
                let i = choose|i: int| 0 <= i < escape_html_spec(s).len() && escape_html_spec(s)[i] == '<';
                if i < prev.len() {
                    assert(prev[i] == '<');
                } else {
                    assert(last[i - prev.len()] == '<');
                }
            }
        }
        assert(!escape_html_spec(s).contains('>')) by {
            let prev = escape_html_spec(s.drop_last());
            let last = escape_char(s.last());
            assert(escape_html_spec(s) == prev + last);
            if escape_html_spec(s).contains('>') {
                let i = choose|i: int| 0 <= i < escape_html_spec(s).len() && escape_html_spec(s)[i] == '>';
                if i < prev.len() {
                    assert(prev[i] == '>');
                } else {
                    assert(last[i - prev.len()] == '>');
                }
            }
        }
        if s[0] == '&' {
            assert(whole.take(4) != seq!['&', 'l', 't', ';']) by {
                assert(whole[1] == 'a');
            }
            assert(whole.take(4) != seq!['&', 'g', 't', ';']) by {
                assert(whole[1] == 'a');
            }
            assert(whole.take(5) =~= seq!['&', 'a', 'm', 'p', ';']);
            assert(whole.skip(5) =~= rest);
        } else if s[0] == '<' {
            assert(whole.take(4) =~= seq!['&', 'l', 't', ';']);
            assert(whole.skip(4) =~= rest);
        } else if s[0] == '>' {
            assert(whole.take(4) != seq!['&', 'l', 't', ';']) by {
                assert(whole[1] == 'g');
            }
            assert(whole.take(4) =~= seq!['&', 'g', 't', ';']);
            assert(whole.skip(4) =~= rest);
        } else {
            assert(whole[0] == s[0]);
            assert(whole.len() >= 4 ==> whole.take(4)[0] != '&');
            assert(whole.len() >= 5 ==> whole.take(5)[0] != '&');
            assert(whole.skip(1) =~= rest);
        }
        assert(seq![s[0]] + s.drop_first() =~= s);
    }
}

/// `raw` HTML-escaped, appended to `out`.
pub fn push_escaped(out: &mut String, raw: &str)
    ensures
        final(out)@ == old(out)@ + escape_html_spec(raw@),
{
    let v = chars_of(raw);
    let ghost start = out@;
    let mut k: usize = 0;
    while k < v.len()
        invariant
            k <= v.len(),
            v@ == raw@,
            out@ == start + escape_html_spec(v@.take(k as int)),
        decreases v.len() - k,
    {
        let c = v[k];
        if c == '&' {
            push_chars(out, &['&', 'a', 'm', 'p', ';']);
        } else if c == '<' {
            push_chars(out, &['&', 'l', 't', ';']);
        } else if c == '>' {
            push_chars(out, &['&', 'g', 't', ';']);
        } else {
            push_char(out, c);
        }
        proof {
            assert(v@.take(k + 1).drop_last() =~= v@.take(k as int));
            assert(start + escape_html_spec(v@.take(k + 1)) =~= start + escape_html_spec(v@.take(k as int)) + escape_char(c));
        }
        k = k + 1;
    }
    assert(v@.take(v.len() as int) =~= v@);
}

/// Minimal HTML escaping for user-controlled text in captions.
pub fn escape_html(raw: &str) -> (r: String)
    ensures
        r@ == escape_html_spec(raw@),
{
    let mut r = String::new();
    push_escaped(&mut r, raw);
    r
}


/// A copy of a list of strings.
pub fn clone_strings(v: &Vec<String>) -> (r: Vec<String>)
    ensures
        r@ == v@,
{
    let mut r: Vec<String> = Vec::new();
    let mut k: usize = 0;
    while k < v.len()
        invariant
            k <= v.len(),
            r@ == v@.take(k as int),
        decreases v.len() - k,
    {
        r.push(v[k].clone());
        assert(v@.take(k + 1) =~= v@.take(k as int).push(v@[k as int]));
        k = k + 1;
    }
    assert(v@.take(v.len() as int) =~= v@);
    r
}

/// A copy of an optional string.
pub fn clone_opt_string(v: &Option<String>) -> (r: Option<String>)
    ensures
        r == *v,
{
    match v {
        Some(s) => Some(s.clone()),
        None => None,
    }
}

/// The views of a list of strings.
pub open spec fn views(v: Seq<String>) -> Seq<Seq<char>> {
    v.map_values(|s: String| s@)
}

/// `v` holds a string equal to `t`.
pub fn contains_string(v: &[String], t: &String) -> (b: bool)
    ensures
        b == views(v@).contains(t@),
{
    let mut k: usize = 0;
    while k < v.len()
        invariant
            k <= v.len(),
            forall|i: int| 0 <= i < k ==> v@[i]@ != t@,
        decreases v.len() - k,
    {
        if v[k] == *t {
            assert(views(v@)[k as int] == t@);
            return true;
        }
        k = k + 1;
    }
    assert forall|i: int| 0 <= i < views(v@).len() implies views(v@)[i] != t@ by {}
    false
}


/// The two slices hold the same characters.
pub fn str_eq(a: &str, b: &str) -> (r: bool)
    ensures
        r == (a@ == b@),
{
    let v = chars_of(a);
    let w = chars_of(b);
    if v.len() != w.len() {
        return false;
    }
    let mut k: usize = 0;
    while k < v.len()
        invariant
            k <= v.len() == w.len(),
            v@ == a@,
            w@ == b@,
            forall|i: int| 0 <= i < k ==> v@[i] == w@[i],
        decreases v.len() - k,
    {
        if v[k] != w[k] {
            assert(v@[k as int] != w@[k as int]);
            return false;
        }
        k = k + 1;
    }
    assert(v@ =~= w@);
    true
}

// ------------------------------------------------------------ numbers ----

pub open spec fn is_digit(c: char) -> bool {
    '0' <= c && c <= '9'
}

pub open spec fn all_digits(s: Seq<char>) -> bool {
    forall|i: int| 0 <= i < s.len() ==> is_digit(#[trigger] s[i])
}

/// The number a run of decimal digits spells.
pub open spec fn digits_value(s: Seq<char>) -> nat
    decreases s.len(),
{
    if s.len() == 0 {
        0
    } else {
        digits_value(s.drop_last()) * 10 + ((s.last() as u32) - 48) as nat
    }
}

/// `str::parse::<u64>`: an optional `+`, then one or more decimal digits
/// whose value fits.
pub open spec fn parse_u64_spec(s: Seq<char>) -> Option<u64> {
    let d = if s.len() > 0 && s[0] == '+' { s.drop_first() } else { s };
    if d.len() > 0 && all_digits(d) && digits_value(d) <= u64::MAX {
        Some(digits_value(d) as u64)
    } else {
        None
    }
}

/// A longer run of digits never spells a smaller number.
pub proof fn lemma_digits_prefix(s: Seq<char>, k: int)
    requires
        all_digits(s),
        0 <= k <= s.len(),
    ensures
        digits_value(s.take(k)) <= digits_value(s),
    decreases s.len() - k,
{
    if k < s.len() {
        lemma_digits_prefix(s, k + 1);
        assert(s.take(k + 1).drop_last() =~= s.take(k));
    } else {
        assert(s.take(k) =~= s);
    }
}

/// `str::parse::<u64>` on the characters `v[a..b)`.
pub fn parse_u64_chars(v: &Vec<char>, a: usize, b: usize) -> (r: Option<u64>)
    requires
        a <= b <= v.len(),
    ensures
        r == parse_u64_spec(v@.subrange(a as int, b as int)),
{
    let ghost s = v@.subrange(a as int, b as int);
    let mut i = a;
    if i < b && v[i] == '+' {
        i = i + 1;
    }
    let ghost d = v@.subrange(i as int, b as int);
    proof {
        if s.len() > 0 && s[0] == '+' {
            assert(d =~= s.drop_first());
        } else {
            assert(d =~= s);
        }
    }
    if i == b {
        return None;
    }
    let start = i;
    let mut value: u64 = 0;
    assert(v@.subrange(start as int, start as int) =~= Seq::<char>::empty());
    while i < b
        invariant
            start <= i <= b <= v.len(),
            start < b,
            d == v@.subrange(start as int, b as int),
            parse_u64_spec(v@.subrange(a as int, b as int)) == (if d.len() > 0 && all_digits(d) && digits_value(d) <= u64::MAX {
                Some(digits_value(d) as u64)
            } else {
                None
            }),
            all_digits(v@.subrange(start as int, i as int)),
            value == digits_value(v@.subrange(start as int, i as int)),
        decreases b - i,
    {
        let c = v[i];
        let ghost pre = v@.subrange(start as int, i as int);
        let ghost next = v@.subrange(start as int, i + 1);
        assert(next.drop_last() =~= pre);
        assert(d.take(i + 1 - start) =~= next);
        if c < '0' || c > '9' {
            assert(!is_digit(d[i - start]));
            return None;
        }
        let digit = (c as u32 - 48) as u64;
        assert(all_digits(next));
        if value > (u64::MAX - digit) / 10 {
            proof {
                assert(digits_value(next) > u64::MAX);
                if all_digits(d) {
                    lemma_digits_prefix(d, i + 1 - start);
                }
            }
            return None;
        }
        value = value * 10 + digit;
        i = i + 1;
    }
    assert(v@.subrange(start as int, b as int) =~= d);
    Some(value)
}

/// `str::parse::<u64>`.
pub fn parse_u64(s: &str) -> (r: Option<u64>)
    ensures
        r == parse_u64_spec(s@),
{
    let v = chars_of(s);
    let r = parse_u64_chars(&v, 0, v.len());
    assert(v@.subrange(0, v.len() as int) =~= v@);
    r
}

// ------------------------------------------------------------ ordering ----

/// Lexicographic order by character: the order of `str` (UTF-8 byte order
/// and code point order agree).
pub open spec fn seq_lt(a: Seq<char>, b: Seq<char>) -> bool
    decreases a.len(),
{
    if a.len() == 0 {
        b.len() > 0
    } else if b.len() == 0 {
        false
    } else if a[0] != b[0] {
        a[0] < b[0]
    } else {
        seq_lt(a.drop_first(), b.drop_first())
    }
}

pub proof fn lemma_seq_lt_transitive(a: Seq<char>, b: Seq<char>, c: Seq<char>)
    requires
        seq_lt(a, b),
        seq_lt(b, c),
    ensures
        seq_lt(a, c),
    decreases a.len(),
{
    if a.len() > 0 && b.len() > 0 && c.len() > 0 && a[0] == b[0] && b[0] == c[0] {
        lemma_seq_lt_transitive(a.drop_first(), b.drop_first(), c.drop_first());
    }
}

/// Two different sequences are ordered one way or the other, never both.
pub proof fn lemma_seq_lt_total(a: Seq<char>, b: Seq<char>)
    ensures
        a != b ==> (seq_lt(a, b) || seq_lt(b, a)),
        !(seq_lt(a, b) && seq_lt(b, a)),
        !seq_lt(a, a),
    decreases a.len(),
{
    if a.len() > 0 && b.len() > 0 && a[0] == b[0] {
        lemma_seq_lt_total(a.drop_first(), b.drop_first());
        if a != b {
            assert(a.drop_first() != b.drop_first()) by {
                if a.drop_first() == b.drop_first() {
                    assert(a =~= seq![a[0]] + a.drop_first());
                    assert(b =~= seq![b[0]] + b.drop_first());
                }
            }
        }
    } else if a.len() > 0 {
        lemma_seq_lt_total(a.drop_first(), a.drop_first());
    }
    if a.len() == 0 && b.len() == 0 {
        assert(a =~= b);
    }
}

/// `a < b` for strings.
pub fn str_lt(a: &str, b: &str) -> (r: bool)
    ensures
        r == seq_lt(a@, b@),
{
    let v = chars_of(a);
    let w = chars_of(b);
    let mut k: usize = 0;
    assert(v@.skip(0) =~= v@);
    assert(w@.skip(0) =~= w@);
    while k < v.len() && k < w.len() && v[k] == w[k]
        invariant
            k <= v.len(),
            k <= w.len(),
            v@ == a@,
            w@ == b@,
            seq_lt(a@, b@) == seq_lt(v@.skip(k as int), w@.skip(k as int)),
        decreases v.len() - k,
    {
        assert(v@.skip(k as int).drop_first() =~= v@.skip(k + 1));
        assert(w@.skip(k as int).drop_first() =~= w@.skip(k + 1));
        k = k + 1;
    }
    if k == v.len() {
        k < w.len()
    } else if k == w.len() {
        false
    } else {
        v[k] < w[k]
    }
}

// -------------------------------------------------------------- words ----

/// The whitespace-separated words of `s[i..]`.
pub open spec fn words_from(s: Seq<char>, i: int) -> Seq<Seq<char>>
    decreases s.len() - i,
{
    if i < 0 || i >= s.len() {
        seq![]
    } else {
        let a = skip_ws(s, i, s.len() as int);
        if a >= s.len() || a < i {
            seq![]
        } else {
            let b = next_ws(s, a, s.len() as int);
            if b <= a || b > s.len() {
                seq![]
            } else {
                seq![s.subrange(a, b)] + words_from(s, b)
            }
        }
    }
}

/// `str::split_whitespace`.
pub open spec fn words(s: Seq<char>) -> Seq<Seq<char>> {
    words_from(s, 0)
}

/// `str::split_whitespace`, collected.
pub fn split_words(s: &str) -> (r: Vec<String>)
    ensures
        views(r@) == words(s@),
{
    let v = chars_of(s);
    let n = v.len();
    let mut r: Vec<String> = Vec::new();
    let mut i: usize = 0;
    while i < n
        invariant
            i <= n == v@.len(),
            v@ == s@,
            views(r@) + words_from(v@, i as int) == words(v@),
        decreases n - i,
    {
        let a = skip_whitespace(&v, i, n);
        if a >= n {
            proof {
                assert(words_from(v@, i as int) =~= Seq::<Seq<char>>::empty());
                assert(words_from(v@, n as int) =~= Seq::<Seq<char>>::empty());
            }
            i = n;
        } else {
            let b = next_whitespace(&v, a, n);
            let w = string_of(&v, a, b);
            let ghost before = r@;
            r.push(w);
            proof {
                assert(views(r@) =~= views(before).push(v@.subrange(a as int, b as int)));
                assert(words_from(v@, i as int) == seq![v@.subrange(a as int, b as int)] + words_from(v@, b as int));
                assert(views(r@) + words_from(v@, b as int) =~= views(before) + words_from(v@, i as int));
            }
            i = b;
        }
    }
    proof {
        assert(words_from(v@, n as int) =~= Seq::<Seq<char>>::empty());
        assert(views(r@) =~= views(r@) + Seq::<Seq<char>>::empty());
    }
    r
}

/// `str::parse::<i64>`: an optional sign, then one or more decimal digits
/// whose value fits.
pub open spec fn parse_i64_spec(s: Seq<char>) -> Option<i64> {
    let signed = s.len() > 0 && (s[0] == '-' || s[0] == '+');
    let d = if signed { s.drop_first() } else { s };
    if d.len() > 0 && all_digits(d) {
        if signed && s[0] == '-' {
            if digits_value(d) <= 0x8000_0000_0000_0000 { Some((0 - digits_value(d)) as i64) } else { None }
        } else {
            if digits_value(d) <= i64::MAX { Some(digits_value(d) as i64) } else { None }
        }
    } else {
        None
    }
}

/// `str::parse::<i64>`.
pub fn parse_i64(s: &str) -> (r: Option<i64>)
    ensures
        r == parse_i64_spec(s@),
{
    let v = chars_of(s);
    let n = v.len();
    if n == 0 {
        return None;
    }
    let neg = v[0] == '-';
    let signed = neg || v[0] == '+';
    let a: usize = if signed { 1 } else { 0 };
    let ghost d = v@.subrange(a as int, n as int);
    proof {
        if signed {
            assert(d =~= v@.drop_first());
        } else {
            assert(d =~= v@);
        }
    }
    if a < n && v[a] == '+' {
        assert(!is_digit(d[0]));
        return None;
    }
    let m = parse_u64_chars(&v, a, n);
    proof {
        assert(!(d.len() > 0 && d[0] == '+'));
    }
    match m {
        None => None,
        Some(x) => {
            if neg {
                if x <= 0x8000_0000_0000_0000 {
                    Some((0i128 - x as i128) as i64)
                } else {
                    None
                }
            } else if x <= 0x7fff_ffff_ffff_ffff {
                Some(x as i64)
            } else {
                None
            }
        },
    }
}

} // verus!
