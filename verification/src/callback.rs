//! The data behind the bot's inline buttons: what a keyboard writes into a
//! button and what the callback handler reads back out of it.

use vstd::prelude::*;
use crate::bot::{differs_from, parse_post_id, post_id_spec, strip_leading};
use crate::post::PostId;
use crate::text::{
    all_digits, chars_of, decimal, digit_char, digits_value, is_digit, is_ws, join, lemma_first_idx_is, parse_u64,
    parse_u64_spec, push_decimal, push_str, skip_ws, str_eq, trim_end, trimmed, views,
};

verus! {

/// A moderation button on a submission's review message.
#[derive(Debug, Clone, Copy, PartialEq, Eq, Structural)]
pub enum ModVerb {
    Approve,
    Reject,
    /// Accept with extra tags (asks for them).
    AddTags,
    /// Reject with a reason (asks for it).
    Reason,
    /// Ask the submitter for changes (asks what).
    Changes,
}

/// What a pressed button asks for. Ids that do not read as numbers are
/// kept as `None`: the handler answers those as malformed.
#[derive(Debug, Clone, Copy, PartialEq, Eq, Structural)]
pub enum Callback {
    Moderate(ModVerb, Option<PostId>),
    /// Show the pools of a post.
    PoolList(Option<PostId>),
    /// Back from the pool chooser to the review keyboard, which had this
    /// many pools.
    PoolBack(Option<PostId>, Option<u64>),
    /// Stage and publish this pool.
    PoolPick(Option<PostId>, Option<u64>),
    /// A viewer reports a published post.
    Report(Option<PostId>),
    /// A moderator takes a reported post down.
    ReportTake(Option<PostId>),
    /// A moderator dismisses a post's reports.
    ReportDismiss(Option<PostId>),
    BrowseErase,
    /// Never show this e621 post in browse again.
    BrowseSkip(Option<u64>),
    /// Save this e621 post into the feed.
    BrowseSend(Option<u64>),
    /// The next browse page.
    BrowseMore,
}

// ---------------------------------------------------------- splitting ----

/// `str::split(c)`: the pieces between the separators, empty ones
/// included; always at least one.
pub open spec fn split_on(s: Seq<char>, c: char) -> Seq<Seq<char>>
    decreases s.len(),
{
    if s.len() == 0 {
        seq![seq![]]
    } else {
        let prev = split_on(s.drop_last(), c);
        if s.last() == c {
            prev.push(seq![])
        } else {
            prev.update(prev.len() - 1, prev.last().push(s.last()))
        }
    }
}

pub proof fn lemma_split_nonempty(s: Seq<char>, c: char)
    ensures
        split_on(s, c).len() >= 1,
    decreases s.len(),
{
    if s.len() > 0 {
        lemma_split_nonempty(s.drop_last(), c);
    }
}

/// The pieces of `s` between `:` separators.
pub fn split_colons(s: &str) -> (r: Vec<String>)
    ensures
        views(r@) == split_on(s@, ':'),
{
    let v = chars_of(s);
    let mut parts: Vec<String> = Vec::new();
    let mut cur = String::new();
    let mut k: usize = 0;
    proof {
        assert(v@.take(0) =~= Seq::<char>::empty());
    }
    while k < v.len()
        invariant
            k <= v.len(),
            v@ == s@,
            views(parts@).push(cur@) == split_on(v@.take(k as int), ':'),
        decreases v.len() - k,
    {
        assert(v@.take(k + 1).drop_last() =~= v@.take(k as int));
        assert(v@.take(k + 1).last() == v@[k as int]);
        let ghost before = views(parts@).push(cur@);
        proof {
            lemma_split_nonempty(v@.take(k as int), ':');
        }
        if v[k] == ':' {
            let done = cur;
            parts.push(done);
            cur = String::new();
            assert(views(parts@).push(cur@) =~= before.push(seq![]));
        } else {
            let ghost old_cur = cur@;
            crate::text::push_char(&mut cur, v[k]);
            assert(views(parts@).push(cur@) =~= before.update(before.len() - 1, old_cur.push(v@[k as int])));
        }
        k = k + 1;
    }
    assert(v@.take(v.len() as int) =~= v@);
    parts.push(cur);
    parts
}

// ------------------------------------------------------------- reading ----

pub open spec fn mod_verb_spec(w: Seq<char>) -> Option<ModVerb> {
    if w == "approve"@ {
        Some(ModVerb::Approve)
    } else if w == "reject"@ {
        Some(ModVerb::Reject)
    } else if w == "addtags"@ {
        Some(ModVerb::AddTags)
    } else if w == "reason"@ {
        Some(ModVerb::Reason)
    } else if w == "changes"@ {
        Some(ModVerb::Changes)
    } else {
        None
    }
}

/// What the callback handler makes of button data split at `:`.
pub open spec fn callback_spec(p: Seq<Seq<char>>) -> Option<Callback> {
    if p.len() == 1 && p[0] == "brmore"@ {
        Some(Callback::BrowseMore)
    } else if p.len() == 2 && p[0] == "browse"@ && p[1] == "erase"@ {
        Some(Callback::BrowseErase)
    } else if p.len() == 2 && p[0] == "report"@ {
        Some(Callback::Report(post_id_spec(p[1])))
    } else if p.len() == 3 && p[0] == "mod"@ && mod_verb_spec(p[1]) is Some {
        Some(Callback::Moderate(mod_verb_spec(p[1])->0, post_id_spec(p[2])))
    } else if p.len() == 3 && p[0] == "pool"@ && p[1] == "list"@ {
        Some(Callback::PoolList(post_id_spec(p[2])))
    } else if p.len() == 4 && p[0] == "pool"@ && p[1] == "back"@ {
        Some(Callback::PoolBack(post_id_spec(p[2]), parse_u64_spec(p[3])))
    } else if p.len() == 4 && p[0] == "pool"@ && p[1] == "pick"@ {
        Some(Callback::PoolPick(post_id_spec(p[2]), parse_u64_spec(p[3])))
    } else if p.len() == 3 && p[0] == "repmod"@ && p[1] == "take"@ {
        Some(Callback::ReportTake(post_id_spec(p[2])))
    } else if p.len() == 3 && p[0] == "repmod"@ && p[1] == "dismiss"@ {
        Some(Callback::ReportDismiss(post_id_spec(p[2])))
    } else if p.len() == 3 && p[0] == "browse"@ && p[1] == "skip"@ {
        Some(Callback::BrowseSkip(parse_u64_spec(p[2])))
    } else if p.len() == 3 && p[0] == "browse"@ && p[1] == "send"@ {
        Some(Callback::BrowseSend(parse_u64_spec(p[2])))
    } else {
        None
    }
}

fn mod_verb(w: &str) -> (r: Option<ModVerb>)
    ensures
        r == mod_verb_spec(w@),
{
    if str_eq(w, "approve") {
        Some(ModVerb::Approve)
    } else if str_eq(w, "reject") {
        Some(ModVerb::Reject)
    } else if str_eq(w, "addtags") {
        Some(ModVerb::AddTags)
    } else if str_eq(w, "reason") {
        Some(ModVerb::Reason)
    } else if str_eq(w, "changes") {
        Some(ModVerb::Changes)
    } else {
        None
    }
}

/// The button a callback's data names; `None` for data no button writes.
pub fn parse_callback(data: &str) -> (r: Option<Callback>)
    ensures
        r == callback_spec(split_on(data@, ':')),
{
    let parts = split_colons(data);
    let ghost p = views(parts@);
    let n = parts.len();
    if n == 1 && str_eq(parts[0].as_str(), "brmore") {
        return Some(Callback::BrowseMore);
    }
    if n == 2 {
        if str_eq(parts[0].as_str(), "browse") && str_eq(parts[1].as_str(), "erase") {
            return Some(Callback::BrowseErase);
        }
        if str_eq(parts[0].as_str(), "report") {
            return Some(Callback::Report(parse_post_id(parts[1].as_str())));
        }
        return None;
    }
    if n == 3 {
        let head = parts[0].as_str();
        let verb = parts[1].as_str();
        let id = parts[2].as_str();
        if str_eq(head, "mod") {
            match mod_verb(verb) {
                Some(v) => return Some(Callback::Moderate(v, parse_post_id(id))),
                None => {},
            }
        }
        if str_eq(head, "pool") && str_eq(verb, "list") {
            return Some(Callback::PoolList(parse_post_id(id)));
        }
        if str_eq(head, "repmod") && str_eq(verb, "take") {
            return Some(Callback::ReportTake(parse_post_id(id)));
        }
        if str_eq(head, "repmod") && str_eq(verb, "dismiss") {
            return Some(Callback::ReportDismiss(parse_post_id(id)));
        }
        if str_eq(head, "browse") && str_eq(verb, "skip") {
            return Some(Callback::BrowseSkip(parse_u64(id)));
        }
        if str_eq(head, "browse") && str_eq(verb, "send") {
            return Some(Callback::BrowseSend(parse_u64(id)));
        }
        return None;
    }
    if n == 4 && str_eq(parts[0].as_str(), "pool") {
        if str_eq(parts[1].as_str(), "back") {
            return Some(Callback::PoolBack(parse_post_id(parts[2].as_str()), parse_u64(parts[3].as_str())));
        }
        if str_eq(parts[1].as_str(), "pick") {
            return Some(Callback::PoolPick(parse_post_id(parts[2].as_str()), parse_u64(parts[3].as_str())));
        }
    }
    None
}

// ------------------------------------------------------------- writing ----

pub open spec fn verb_name(v: ModVerb) -> Seq<char> {
    match v {
        ModVerb::Approve => "approve"@,
        ModVerb::Reject => "reject"@,
        ModVerb::AddTags => "addtags"@,
        ModVerb::Reason => "reason"@,
        ModVerb::Changes => "changes"@,
    }
}

/// A callback every field of which is present: the kind a keyboard writes.
pub open spec fn complete(c: Callback) -> bool {
    match c {
        Callback::Moderate(_, id) | Callback::PoolList(id) | Callback::Report(id)
        | Callback::ReportTake(id) | Callback::ReportDismiss(id) => id is Some,
        Callback::PoolBack(id, n) | Callback::PoolPick(id, n) => id is Some && n is Some,
        Callback::BrowseSkip(n) | Callback::BrowseSend(n) => n is Some,
        Callback::BrowseErase | Callback::BrowseMore => true,
    }
}

/// The pieces a keyboard joins with `:` for a button.
pub open spec fn callback_pieces(c: Callback) -> Seq<Seq<char>> {
    match c {
        Callback::Moderate(v, id) => seq!["mod"@, verb_name(v), decimal((id->0).0 as nat)],
        Callback::PoolList(id) => seq!["pool"@, "list"@, decimal((id->0).0 as nat)],
        Callback::PoolBack(id, n) => seq!["pool"@, "back"@, decimal((id->0).0 as nat), decimal(n->0 as nat)],
        Callback::PoolPick(id, n) => seq!["pool"@, "pick"@, decimal((id->0).0 as nat), decimal(n->0 as nat)],
        Callback::Report(id) => seq!["report"@, decimal((id->0).0 as nat)],
        Callback::ReportTake(id) => seq!["repmod"@, "take"@, decimal((id->0).0 as nat)],
        Callback::ReportDismiss(id) => seq!["repmod"@, "dismiss"@, decimal((id->0).0 as nat)],
        Callback::BrowseErase => seq!["browse"@, "erase"@],
        Callback::BrowseSkip(n) => seq!["browse"@, "skip"@, decimal(n->0 as nat)],
        Callback::BrowseSend(n) => seq!["browse"@, "send"@, decimal(n->0 as nat)],
        Callback::BrowseMore => seq!["brmore"@],
    }
}

fn push_verb(s: &mut String, v: ModVerb)
    ensures
        final(s)@ == old(s)@ + verb_name(v),
{
    match v {
        ModVerb::Approve => push_str(s, "approve"),
        ModVerb::Reject => push_str(s, "reject"),
        ModVerb::AddTags => push_str(s, "addtags"),
        ModVerb::Reason => push_str(s, "reason"),
        ModVerb::Changes => push_str(s, "changes"),
    }
}

/// The data a keyboard puts behind a button.
pub fn callback_data(c: Callback) -> (s: String)
    requires
        complete(c),
    ensures
        s@ == join(callback_pieces(c), seq![':']),
{
    let mut s = String::new();
    let ghost p = callback_pieces(c);
    proof {
        reveal_strlit(":");
        assert(":"@ =~= seq![':']);
    }
    match c {
        Callback::Moderate(v, id) => {
            push_str(&mut s, "mod:");
            push_verb(&mut s, v);
            push_str(&mut s, ":");
            push_decimal(&mut s, id.unwrap().0);
        },
        Callback::PoolList(id) => {
            push_str(&mut s, "pool:list:");
            push_decimal(&mut s, id.unwrap().0);
        },
        Callback::PoolBack(id, n) => {
            push_str(&mut s, "pool:back:");
            push_decimal(&mut s, id.unwrap().0);
            push_str(&mut s, ":");
            push_decimal(&mut s, n.unwrap());
        },
        Callback::PoolPick(id, n) => {
            push_str(&mut s, "pool:pick:");
            push_decimal(&mut s, id.unwrap().0);
            push_str(&mut s, ":");
            push_decimal(&mut s, n.unwrap());
        },
        Callback::Report(id) => {
            push_str(&mut s, "report:");
            push_decimal(&mut s, id.unwrap().0);
        },
        Callback::ReportTake(id) => {
            push_str(&mut s, "repmod:take:");
            push_decimal(&mut s, id.unwrap().0);
        },
        Callback::ReportDismiss(id) => {
            push_str(&mut s, "repmod:dismiss:");
            push_decimal(&mut s, id.unwrap().0);
        },
        Callback::BrowseErase => push_str(&mut s, "browse:erase"),
        Callback::BrowseSkip(n) => {
            push_str(&mut s, "browse:skip:");
            push_decimal(&mut s, n.unwrap());
        },
        Callback::BrowseSend(n) => {
            push_str(&mut s, "browse:send:");
            push_decimal(&mut s, n.unwrap());
        },
        Callback::BrowseMore => push_str(&mut s, "brmore"),
    }
    proof {
        lemma_join_pieces(p);
        reveal_strlit("mod:");
        reveal_strlit("mod");
        reveal_strlit("pool:list:");
        reveal_strlit("pool");
        reveal_strlit("list");
        reveal_strlit("pool:back:");
        reveal_strlit("back");
        reveal_strlit("pool:pick:");
        reveal_strlit("pick");
        reveal_strlit("report:");
        reveal_strlit("report");
        reveal_strlit("repmod:take:");
        reveal_strlit("repmod");
        reveal_strlit("take");
        reveal_strlit("repmod:dismiss:");
        reveal_strlit("dismiss");
        reveal_strlit("browse:erase");
        reveal_strlit("browse");
        reveal_strlit("erase");
        reveal_strlit("browse:skip:");
        reveal_strlit("skip");
        reveal_strlit("browse:send:");
        reveal_strlit("send");
        reveal_strlit("brmore");
        assert(s@ =~= join(p, seq![':']));
    }
    s
}

/// Joined pieces, spelled out for up to four pieces.
pub proof fn lemma_join_pieces(p: Seq<Seq<char>>)
    ensures
        p.len() == 1 ==> join(p, seq![':']) == p[0],
        p.len() == 2 ==> join(p, seq![':']) == p[0] + seq![':'] + p[1],
        p.len() == 3 ==> join(p, seq![':']) == p[0] + seq![':'] + p[1] + seq![':'] + p[2],
        p.len() == 4 ==> join(p, seq![':']) == p[0] + seq![':'] + p[1] + seq![':'] + p[2] + seq![':'] + p[3],
{
    let sep = seq![':'];
    if p.len() >= 1 && p.len() <= 4 {
        let q1 = p.take(1);
        assert(join(q1, sep) == p[0]);
        if p.len() >= 2 {
            let q2 = p.take(2);
            assert(q2.drop_last() =~= q1);
            assert(join(q2, sep) == join(q1, sep) + sep + p[1]);
            if p.len() >= 3 {
                let q3 = p.take(3);
                assert(q3.drop_last() =~= q2);
                assert(join(q3, sep) == join(q2, sep) + sep + p[2]);
                if p.len() == 4 {
                    let q4 = p.take(4);
                    assert(q4.drop_last() =~= q3);
                    assert(join(q4, sep) == join(q3, sep) + sep + p[3]);
                    assert(q4 =~= p);
                } else {
                    assert(q3 =~= p);
                }
            } else {
                assert(q2 =~= p);
            }
        } else {
            assert(q1 =~= p);
        }
    }
}

// --------------------------------------------------------- round trip ----

/// Splitting after text without the separator only lengthens the last
/// piece.
pub proof fn lemma_split_append(s: Seq<char>, t: Seq<char>, c: char)
    requires
        forall|k: int| 0 <= k < t.len() ==> t[k] != c,
    ensures
        split_on(s + t, c) == split_on(s, c).update(split_on(s, c).len() - 1, split_on(s, c).last() + t),
    decreases t.len(),
{
    lemma_split_nonempty(s, c);
    let sp = split_on(s, c);
    if t.len() == 0 {
        assert(s + t =~= s);
        assert(sp.last() + t =~= sp.last());
        assert(sp.update(sp.len() - 1, sp.last()) =~= sp);
    } else {
        let t0 = t.drop_last();
        lemma_split_append(s, t0, c);
        assert((s + t).drop_last() =~= s + t0);
        assert((s + t).last() == t.last());
        assert(t.last() == t[t.len() - 1]);
        let prev = split_on(s + t0, c);
        assert(prev == sp.update(sp.len() - 1, sp.last() + t0));
        assert((sp.last() + t0).push(t.last()) =~= sp.last() + t);
        assert(split_on(s + t, c) =~= sp.update(sp.len() - 1, sp.last() + t));
    }
}

/// Pieces without the separator, joined with it and split at it, come back.
pub proof fn lemma_split_join(pieces: Seq<Seq<char>>, c: char)
    requires
        pieces.len() >= 1,
        forall|i: int, k: int| 0 <= i < pieces.len() && 0 <= k < pieces[i].len() ==> #[trigger] pieces[i][k] != c,
    ensures
        split_on(join(pieces, seq![c]), c) == pieces,
    decreases pieces.len(),
{
    let last = pieces.last();
    assert(last == pieces[pieces.len() - 1]);
    assert forall|k: int| 0 <= k < last.len() implies last[k] != c by {
        assert(pieces[pieces.len() - 1][k] != c);
    }
    if pieces.len() == 1 {
        lemma_split_append(seq![], last, c);
        assert(Seq::<char>::empty() + last =~= last);
        assert(Seq::<char>::empty() + last =~= pieces[0]);
        assert(split_on(Seq::<char>::empty(), c) == seq![Seq::<char>::empty()]);
        assert(seq![Seq::<char>::empty()].update(0, Seq::<char>::empty() + last) =~= pieces);
    } else {
        let dl = pieces.drop_last();
        assert forall|i: int, k: int| 0 <= i < dl.len() && 0 <= k < dl[i].len() implies #[trigger] dl[i][k] != c by {
            assert(dl[i] == pieces[i]);
        }
        lemma_split_join(dl, c);
        let s = join(dl, seq![c]).push(c);
        assert(join(pieces, seq![c]) =~= s + last);
        assert(s.drop_last() =~= join(dl, seq![c]));
        assert(split_on(s, c) == dl.push(seq![]));
        lemma_split_append(s, last, c);
        assert(dl.push(seq![]).update(dl.len() as int, Seq::<char>::empty() + last) =~= pieces) by {
            assert(Seq::<char>::empty() + last =~= last);
        }
    }
}

/// A digit character is a digit, with code `d + 48`.
pub proof fn lemma_digit_char(d: nat)
    requires
        d < 10,
    ensures
        is_digit(digit_char(d)),
        (digit_char(d) as u32) == d + 48,
{
    let x: u32 = (d + 48) as u32;
    assert(x == d + 48);
    assert((x as char) as u32 == x);
}

/// A decimal number is digits only, spells its value, and reads back.
pub proof fn lemma_decimal(n: nat)
    ensures
        decimal(n).len() >= 1,
        all_digits(decimal(n)),
        digits_value(decimal(n)) == n,
    decreases n,
{
    lemma_digit_char(n % 10);
    if n < 10 {
        let s = decimal(n);
        assert(n % 10 == n);
        assert(s.drop_last() =~= Seq::<char>::empty());
        assert(digits_value(s.drop_last()) == 0);
        assert(s.last() == digit_char(n));
        assert(digits_value(s) == digits_value(s.drop_last()) * 10 + ((s.last() as u32) - 48) as nat);
    } else {
        lemma_decimal(n / 10);
        let d = decimal(n / 10);
        let s = decimal(n);
        assert(s == d.push(digit_char(n % 10)));
        assert(s.drop_last() =~= d);
        assert forall|i: int| 0 <= i < s.len() implies is_digit(#[trigger] s[i]) by {
            if i < d.len() {
                assert(s[i] == d[i]);
            }
        }
        assert(s.last() == digit_char(n % 10));
        assert(digits_value(s) == digits_value(d) * 10 + ((s.last() as u32) - 48) as nat);
        assert(n == (n / 10) * 10 + n % 10);
    }
}

/// The decimal text of a `u64` reads back as that number, also as a post id.
pub proof fn lemma_decimal_reads_back(n: u64)
    ensures
        parse_u64_spec(decimal(n as nat)) == Some(n),
        post_id_spec(decimal(n as nat)) == Some(PostId(n)),
        forall|k: int| 0 <= k < decimal(n as nat).len() ==> #[trigger] decimal(n as nat)[k] != ':',
{
    let s = decimal(n as nat);
    lemma_decimal(n as nat);
    assert(is_digit(s[0]));
    assert forall|k: int| 0 <= k < s.len() implies #[trigger] s[k] != ':' && !is_ws(s[k]) by {
        assert(is_digit(s[k]));
    }
    assert(!is_ws(s[0]));
    assert(!is_ws(s[s.len() - 1]));
    lemma_first_idx_is(0, 0, s.len() as int, |k: int| !is_ws(s[k]));
    assert(skip_ws(s, 0, s.len() as int) == 0);
    assert(trim_end(s, 0, s.len() as int) == s.len());
    assert(s.subrange(0, s.len() as int) =~= s);
    assert(trimmed(s) == s);
    lemma_first_idx_is(0, 0, s.len() as int, differs_from(s, '#'));
    assert(s.skip(0) =~= s);
    assert(strip_leading(s, '#') == s);
}

/// What a keyboard writes behind a button, the callback handler reads back
/// as that same button.
#[verifier::rlimit(60)]
pub proof fn lemma_callback_roundtrip(c: Callback)
    requires
        complete(c),
    ensures
        callback_spec(split_on(join(callback_pieces(c), seq![':']), ':')) == Some(c),
{
    reveal_strlit("mod");
    reveal_strlit("pool");
    reveal_strlit("list");
    reveal_strlit("back");
    reveal_strlit("pick");
    reveal_strlit("report");
    reveal_strlit("repmod");
    reveal_strlit("take");
    reveal_strlit("dismiss");
    reveal_strlit("browse");
    reveal_strlit("erase");
    reveal_strlit("skip");
    reveal_strlit("send");
    reveal_strlit("brmore");
    reveal_strlit("approve");
    reveal_strlit("reject");
    reveal_strlit("addtags");
    reveal_strlit("reason");
    reveal_strlit("changes");
    let p = callback_pieces(c);
    match c {
        Callback::Moderate(_, id) | Callback::PoolList(id) | Callback::Report(id)
        | Callback::ReportTake(id) | Callback::ReportDismiss(id) => {
            lemma_decimal_reads_back((id->0).0);
        },
        Callback::PoolBack(id, n) | Callback::PoolPick(id, n) => {
            lemma_decimal_reads_back((id->0).0);
            lemma_decimal_reads_back(n->0);
        },
        Callback::BrowseSkip(n) | Callback::BrowseSend(n) => {
            lemma_decimal_reads_back(n->0);
        },
        _ => {},
    }
    assert forall|i: int, k: int| 0 <= i < p.len() && 0 <= k < p[i].len() implies #[trigger] p[i][k] != ':' by {}
    lemma_split_join(p, ':');
    // the literals tell each other apart
    assert("approve"@[1] != "addtags"@[1]);
    assert("reject"@[2] != "reason"@[2]);
    assert("skip"@[1] != "send"@[1]);
    assert("take"@.len() != "dismiss"@.len());
    assert("list"@[0] != "back"@[0] && "list"@[0] != "pick"@[0] && "back"@[0] != "pick"@[0]);
    assert("report"@ != "repmod"@) by {
        assert("report"@[3] != "repmod"@[3]);
    }
    assert("browse"@ != "brmore"@) by {
        assert("browse"@[2] != "brmore"@[2]);
    }
}

// ------------------------------------------------------------ dispatch ----

/// What a button press asks the bot to do.
#[derive(Debug)]
pub enum CallbackAction {
    /// Answer the press, saying nothing.
    Answer,
    /// Answer the press with this toast.
    Toast(String),
    /// Answer the press and append this outcome to the message it sits on.
    Reflect(String),
    /// Wait for the presser's next message to finish this moderation: post
    /// the prompt in the chat and answer with the toast.
    OpenDialogue { dialogue: crate::bot::ModerationDialogue, prompt: String, toast: String },
    /// Approve (or reject) the post; the outcome is appended to the message.
    Moderate { post_id: PostId, approve: bool },
    /// Offer the pools of the post to choose from.
    ListPools(PostId),
    /// Put the review buttons back, with this many pools.
    RestoreReview { post_id: PostId, pools: u64 },
    /// Stage and publish the pool, answering with the toast at once.
    SubmitPool { post_id: PostId, pool_id: u64, toast: String },
    /// Start a viewer report on the post.
    Report(PostId),
    /// Take the reported post down; the outcome is appended to the message.
    TakeDown(PostId),
    /// Dismiss the post's reports; the outcome is appended to the message.
    Dismiss(PostId),
    /// Remove the browse preview.
    BrowseErase,
    /// Never show this e621 post in browse again.
    BrowseSkip(u64),
    /// Save this e621 post into the feed.
    BrowseSend(u64),
    /// The next browse page.
    BrowseMore,
}

pub enum CallbackActionView {
    Answer,
    Toast(Seq<char>),
    Reflect(Seq<char>),
    OpenDialogue { dialogue: crate::bot::ModerationDialogue, prompt: Seq<char>, toast: Seq<char> },
    Moderate { post_id: PostId, approve: bool },
    ListPools(PostId),
    RestoreReview { post_id: PostId, pools: u64 },
    SubmitPool { post_id: PostId, pool_id: u64, toast: Seq<char> },
    Report(PostId),
    TakeDown(PostId),
    Dismiss(PostId),
    BrowseErase,
    BrowseSkip(u64),
    BrowseSend(u64),
    BrowseMore,
}

impl View for CallbackAction {
    type V = CallbackActionView;

    open spec fn view(&self) -> CallbackActionView {
        match self {
            CallbackAction::Answer => CallbackActionView::Answer,
            CallbackAction::Toast(s) => CallbackActionView::Toast(s@),
            CallbackAction::Reflect(s) => CallbackActionView::Reflect(s@),
            CallbackAction::OpenDialogue { dialogue, prompt, toast } => CallbackActionView::OpenDialogue {
                dialogue: *dialogue,
                prompt: prompt@,
                toast: toast@,
            },
            CallbackAction::Moderate { post_id, approve } => CallbackActionView::Moderate { post_id: *post_id, approve: *approve },
            CallbackAction::ListPools(p) => CallbackActionView::ListPools(*p),
            CallbackAction::RestoreReview { post_id, pools } => CallbackActionView::RestoreReview { post_id: *post_id, pools: *pools },
            CallbackAction::SubmitPool { post_id, pool_id, toast } => CallbackActionView::SubmitPool {
                post_id: *post_id,
                pool_id: *pool_id,
                toast: toast@,
            },
            CallbackAction::Report(p) => CallbackActionView::Report(*p),
            CallbackAction::TakeDown(p) => CallbackActionView::TakeDown(*p),
            CallbackAction::Dismiss(p) => CallbackActionView::Dismiss(*p),
            CallbackAction::BrowseErase => CallbackActionView::BrowseErase,
            CallbackAction::BrowseSkip(n) => CallbackActionView::BrowseSkip(*n),
            CallbackAction::BrowseSend(n) => CallbackActionView::BrowseSend(*n),
            CallbackAction::BrowseMore => CallbackActionView::BrowseMore,
        }
    }
}

pub open spec fn malformed() -> Seq<char> {
    "Malformed callback."@
}

/// The prompt that opens a moderation dialogue.
pub open spec fn dialogue_prompt(d: crate::bot::ModerationDialogue) -> Seq<char> {
    match d {
        crate::bot::ModerationDialogue::RejectReason(p) => "Reply with the reason for rejecting post #"@ + decimal(p.0 as nat)
            + " — it will be sent to the submitter."@,
        crate::bot::ModerationDialogue::RequestChanges(p) => "Reply with the changes you want for post #"@ + decimal(p.0 as nat)
            + " — they'll be sent to the submitter, who can then re-submit the same link."@,
        crate::bot::ModerationDialogue::ExtraTags(p) => "Reply with the extra tags for post #"@ + decimal(p.0 as nat)
            + " (space-separated) — duplicates are ignored and the post is accepted with the merged set."@,
    }
}

/// What a press does, given what its data reads as and the presser's role
/// (`None`: not a registered user). Opening a moderation dialogue takes a
/// moderator; the other actions check their own rights when carried out.
pub open spec fn callback_action_spec(c: Option<Callback>, role: Option<crate::user::Role>) -> CallbackActionView {
    match c {
        None => CallbackActionView::Answer,
        Some(Callback::Moderate(v, id)) => match id {
            None => if v == ModVerb::Approve || v == ModVerb::Reject {
                CallbackActionView::Reflect(malformed())
            } else {
                CallbackActionView::Toast(malformed())
            },
            Some(p) => if v == ModVerb::Approve || v == ModVerb::Reject {
                CallbackActionView::Moderate { post_id: p, approve: v == ModVerb::Approve }
            } else if role is None || crate::user::rank(role->0) < crate::user::rank(crate::user::Role::Moderator) {
                CallbackActionView::Toast("You are not allowed to do that."@)
            } else {
                let d = if v == ModVerb::Reason {
                    crate::bot::ModerationDialogue::RejectReason(p)
                } else if v == ModVerb::Changes {
                    crate::bot::ModerationDialogue::RequestChanges(p)
                } else {
                    crate::bot::ModerationDialogue::ExtraTags(p)
                };
                CallbackActionView::OpenDialogue {
                    dialogue: d,
                    prompt: dialogue_prompt(d),
                    toast: "Waiting for your reply for post #"@ + decimal(p.0 as nat) + "."@,
                }
            },
        },
        Some(Callback::PoolList(id)) => match id {
            None => CallbackActionView::Toast(malformed()),
            Some(p) => CallbackActionView::ListPools(p),
        },
        Some(Callback::PoolBack(id, n)) => if id is Some && n is Some {
            CallbackActionView::RestoreReview { post_id: id->0, pools: n->0 }
        } else {
            CallbackActionView::Answer
        },
        Some(Callback::PoolPick(id, n)) => if id is Some && n is Some {
            CallbackActionView::SubmitPool {
                post_id: id->0,
                pool_id: n->0,
                toast: "📚 Submitting the pool — staging its pages…"@,
            }
        } else {
            CallbackActionView::Toast(malformed())
        },
        Some(Callback::Report(id)) => match id {
            None => CallbackActionView::Toast("Malformed report."@),
            Some(p) => CallbackActionView::Report(p),
        },
        Some(Callback::ReportTake(id)) => match id {
            None => CallbackActionView::Reflect(malformed()),
            Some(p) => CallbackActionView::TakeDown(p),
        },
        Some(Callback::ReportDismiss(id)) => match id {
            None => CallbackActionView::Reflect(malformed()),
            Some(p) => CallbackActionView::Dismiss(p),
        },
        Some(Callback::BrowseErase) => CallbackActionView::BrowseErase,
        Some(Callback::BrowseSkip(n)) => match n {
            None => CallbackActionView::Toast(malformed()),
            Some(x) => CallbackActionView::BrowseSkip(x),
        },
        Some(Callback::BrowseSend(n)) => match n {
            None => CallbackActionView::Toast(malformed()),
            Some(x) => CallbackActionView::BrowseSend(x),
        },
        Some(Callback::BrowseMore) => CallbackActionView::BrowseMore,
    }
}

fn post_message(before: &str, p: PostId, after: &str) -> (s: String)
    ensures
        s@ == before@ + decimal(p.0 as nat) + after@,
{
    let mut s = String::new();
    push_str(&mut s, before);
    push_decimal(&mut s, p.0);
    push_str(&mut s, after);
    s
}

/// Decide what a button press does.
pub fn callback_action(data: &str, role: Option<crate::user::Role>) -> (r: CallbackAction)
    ensures
        r@ == callback_action_spec(callback_spec(split_on(data@, ':')), role),
{
    match parse_callback(data) {
        None => CallbackAction::Answer,
        Some(Callback::Moderate(v, id)) => {
            let decides = v == ModVerb::Approve || v == ModVerb::Reject;
            match id {
                None => if decides {
                    CallbackAction::Reflect("Malformed callback.".to_owned())
                } else {
                    CallbackAction::Toast("Malformed callback.".to_owned())
                },
                Some(p) => if decides {
                    CallbackAction::Moderate { post_id: p, approve: v == ModVerb::Approve }
                } else {
                    let allowed = match role {
                        Some(r) => r.at_least(crate::user::Role::Moderator),
                        None => false,
                    };
                    if !allowed {
                        return CallbackAction::Toast("You are not allowed to do that.".to_owned());
                    }
                    let (dialogue, prompt) = if v == ModVerb::Reason {
                        (
                            crate::bot::ModerationDialogue::RejectReason(p),
                            post_message("Reply with the reason for rejecting post #", p, " — it will be sent to the submitter."),
                        )
                    } else if v == ModVerb::Changes {
                        (
                            crate::bot::ModerationDialogue::RequestChanges(p),
                            post_message(
                                "Reply with the changes you want for post #",
                                p,
                                " — they'll be sent to the submitter, who can then re-submit the same link.",
                            ),
                        )
                    } else {
                        (
                            crate::bot::ModerationDialogue::ExtraTags(p),
                            post_message(
                                "Reply with the extra tags for post #",
                                p,
                                " (space-separated) — duplicates are ignored and the post is accepted with the merged set.",
                            ),
                        )
                    };
                    let toast = post_message("Waiting for your reply for post #", p, ".");
                    CallbackAction::OpenDialogue { dialogue, prompt, toast }
                },
            }
        },
        Some(Callback::PoolList(id)) => match id {
            None => CallbackAction::Toast("Malformed callback.".to_owned()),
            Some(p) => CallbackAction::ListPools(p),
        },
        Some(Callback::PoolBack(id, n)) => match (id, n) {
            (Some(p), Some(k)) => CallbackAction::RestoreReview { post_id: p, pools: k },
            _ => CallbackAction::Answer,
        },
        Some(Callback::PoolPick(id, n)) => match (id, n) {
            (Some(p), Some(k)) => CallbackAction::SubmitPool {
                post_id: p,
                pool_id: k,
                toast: "📚 Submitting the pool — staging its pages…".to_owned(),
            },
            _ => CallbackAction::Toast("Malformed callback.".to_owned()),
        },
        Some(Callback::Report(id)) => match id {
            None => CallbackAction::Toast("Malformed report.".to_owned()),
            Some(p) => CallbackAction::Report(p),
        },
        Some(Callback::ReportTake(id)) => match id {
            None => CallbackAction::Reflect("Malformed callback.".to_owned()),
            Some(p) => CallbackAction::TakeDown(p),
        },
        Some(Callback::ReportDismiss(id)) => match id {
            None => CallbackAction::Reflect("Malformed callback.".to_owned()),
            Some(p) => CallbackAction::Dismiss(p),
        },
        Some(Callback::BrowseErase) => CallbackAction::BrowseErase,
        Some(Callback::BrowseSkip(n)) => match n {
            None => CallbackAction::Toast("Malformed callback.".to_owned()),
            Some(x) => CallbackAction::BrowseSkip(x),
        },
        Some(Callback::BrowseSend(n)) => match n {
            None => CallbackAction::Toast("Malformed callback.".to_owned()),
            Some(x) => CallbackAction::BrowseSend(x),
        },
        Some(Callback::BrowseMore) => CallbackAction::BrowseMore,
    }
}

} // verus!
