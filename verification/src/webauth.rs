//! Authentication for the Mini App API: Telegram's signed `initData`, or a
//! personal bearer token.

use vstd::prelude::*;
use crate::text::{
    chars_of, join, lemma_join_push, lemma_seq_lt_total, lower, lowercase, parse_i64,
    parse_i64_spec, push_char, push_str, seq_lt, str_eq, str_lt, string_of, trim_bounds, trimmed, starts_with,
};
use crate::user::{rank, role_name, user_by_telegram, InMemoryUserRepository, Role, TelegramId, User, UserId};

verus! {

// ---------------------------------------------------------- outside ----

/// The `key=value` pairs of an `application/x-www-form-urlencoded` text,
/// percent- and plus-decoded, in order, as the `form_urlencoded` parser of
/// the `url` crate reads them.
pub uninterp spec fn form_pairs_spec(input: Seq<char>) -> Seq<(Seq<char>, Seq<char>)>;

/// `url::form_urlencoded::parse` over the text's bytes, each pair turned
/// into owned strings. The pairs are named, not described.
#[verifier::external_body]
fn form_pairs(input: &str) -> (r: Vec<(String, String)>)
    ensures
        r@.map_values(|p: (String, String)| (p.0@, p.1@)) == form_pairs_spec(input@),
{
    url::form_urlencoded::parse(input.as_bytes()).map(|(k, v)| (k.into_owned(), v.into_owned())).collect()
}

/// HMAC-SHA256 of `message` under `key`.
pub uninterp spec fn hmac_sha256_spec(key: Seq<u8>, message: Seq<u8>) -> Seq<u8>;

/// HMAC-SHA256 (`hmac::Hmac<sha2::Sha256>`: `new_from_slice`, `update`,
/// `finalize`); HMAC accepts a key of any length. The tag is named; its
/// length is the 32 bytes of a SHA-256 output.
#[verifier::external_body]
fn hmac_sha256(key: &[u8], message: &[u8]) -> (tag: Vec<u8>)
    ensures
        tag@ == hmac_sha256_spec(key@, message@),
        tag@.len() == 32,
{
    let mut mac = <hmac::Hmac<sha2::Sha256> as hmac::Mac>::new_from_slice(key).expect("HMAC takes keys of any length");
    hmac::Mac::update(&mut mac, message);
    hmac::Mac::finalize(mac).into_bytes().to_vec()
}

/// A lowercase hexadecimal digit.
pub open spec fn hex_digit(n: nat) -> char {
    if n < 10 { ((n + 48) as u32) as char } else { ((n - 10 + 97) as u32) as char }
}

/// Lowercase hex of `bytes`, two digits per byte, high nibble first.
pub open spec fn hex_lower(bytes: Seq<u8>) -> Seq<char>
    decreases bytes.len(),
{
    if bytes.len() == 0 {
        seq![]
    } else {
        hex_lower(bytes.drop_last()) + seq![hex_digit((bytes.last() / 16) as nat), hex_digit((bytes.last() % 16) as nat)]
    }
}

fn hex_char(n: u8) -> (c: char)
    requires
        n < 16,
    ensures
        c == hex_digit(n as nat),
{
    if n < 10 { (n + 48) as char } else { (n - 10 + 97) as char }
}

/// Lowercase hex, two digits per byte, high nibble first.
fn hex_encode(bytes: &[u8]) -> (s: String)
    ensures
        s@ == hex_lower(bytes@),
{
    let mut s = String::new();
    let mut i: usize = 0;
    assert(bytes@.take(0) =~= Seq::<u8>::empty());
    while i < bytes.len()
        invariant
            i <= bytes.len(),
            s@ == hex_lower(bytes@.take(i as int)),
        decreases bytes.len() - i,
    {
        let b = bytes[i];
        assert(bytes@.take(i + 1).drop_last() =~= bytes@.take(i as int));
        assert(bytes@.take(i + 1).last() == b);
        let hi = hex_char(b / 16);
        let lo = hex_char(b % 16);
        push_char(&mut s, hi);
        push_char(&mut s, lo);
        assert(s@ =~= hex_lower(bytes@.take(i + 1)));
        i = i + 1;
    }
    assert(bytes@.take(bytes.len() as int) =~= bytes@);
    s
}

/// What `serde_json` reads as the integer `id` field of a JSON text: the
/// parse error's message, or the field as an `i64` when the text is an
/// object holding such a number.
pub uninterp spec fn json_user_id_spec(text: Seq<char>) -> Result<Option<i64>, Seq<char>>;

/// `serde_json::from_str::<Value>`, then `value["id"].as_i64()`.
#[verifier::external_body]
fn json_user_id(text: &str) -> (r: Result<Option<i64>, String>)
    ensures
        match r {
            Ok(id) => json_user_id_spec(text@) == Ok::<Option<i64>, Seq<char>>(id),
            Err(e) => json_user_id_spec(text@) == Err::<Option<i64>, Seq<char>>(e@),
        },
{
    match serde_json::from_str::<serde_json::Value>(text) {
        Ok(v) => Ok(v["id"].as_i64()),
        Err(e) => Err(e.to_string()),
    }
}

// ------------------------------------------------------------ init data ----

pub type Pair = (Seq<char>, Seq<char>);

/// Pairs ordered by key, then value.
pub open spec fn pair_lt(a: Pair, b: Pair) -> bool {
    seq_lt(a.0, b.0) || (a.0 == b.0 && seq_lt(a.1, b.1))
}

pub open spec fn after(ps: Seq<Pair>, x: Pair) -> spec_fn(int) -> bool {
    |k: int| pair_lt(x, ps[k])
}

/// The pairs sorted (equal pairs are interchangeable).
pub open spec fn sorted_pairs(ps: Seq<Pair>) -> Seq<Pair>
    decreases ps.len(),
{
    if ps.len() == 0 {
        seq![]
    } else {
        let prev = sorted_pairs(ps.drop_last());
        let x = ps.last();
        prev.insert(crate::text::first_idx(0, prev.len() as int, after(prev, x)), x)
    }
}

/// The value of the last `hash` pair, or nothing.
pub open spec fn provided_hash(ps: Seq<Pair>) -> Seq<char>
    decreases ps.len(),
{
    if ps.len() == 0 {
        seq![]
    } else if ps.last().0 == "hash"@ {
        ps.last().1
    } else {
        provided_hash(ps.drop_last())
    }
}

/// The pairs other than `hash`, in order.
pub open spec fn signed_pairs(ps: Seq<Pair>) -> Seq<Pair>
    decreases ps.len(),
{
    if ps.len() == 0 {
        seq![]
    } else {
        let prev = signed_pairs(ps.drop_last());
        if ps.last().0 == "hash"@ { prev } else { prev.push(ps.last()) }
    }
}

/// The text Telegram signs: sorted `k=v` lines.
pub open spec fn check_string(ps: Seq<Pair>) -> Seq<char> {
    join(sorted_pairs(ps).map_values(|p: Pair| p.0 + "="@ + p.1), seq!['\n'])
}

/// The signature the payload should carry under `token`.
pub open spec fn expected_hash(ps: Seq<Pair>, token: Seq<char>) -> Seq<char> {
    let secret = hmac_sha256_spec(vstd::utf8::encode_utf8("WebAppData"@), vstd::utf8::encode_utf8(token));
    hex_lower(hmac_sha256_spec(secret, vstd::utf8::encode_utf8(check_string(ps))))
}

/// The value of the first pair with this key.
pub open spec fn value_of(ps: Seq<Pair>, key: Seq<char>) -> Option<Seq<char>> {
    let i = crate::text::first_idx(0, ps.len() as int, |k: int| ps[k].0 == key);
    if i < ps.len() { Some(ps[i].1) } else { None }
}

/// A payload older than a day is refused.
pub const MAX_AGE_SECONDS: i64 = 86_400;

/// Telegram's `initData` check: the payload's `hash` must be the hex
/// HMAC-SHA256, under `HMAC-SHA256("WebAppData", bot token)`, of the other
/// pairs sorted and joined as `k=v` lines; `auth_date` must be at most a
/// day before `now` (Unix seconds); the `user` JSON must carry an id.
pub open spec fn verify_spec(init: Seq<char>, token: Seq<char>, now: i64) -> Result<i64, Seq<char>> {
    let all = form_pairs_spec(init);
    let ps = signed_pairs(all);
    let hash = provided_hash(all);
    if hash.len() == 0 {
        Err("initData has no hash"@)
    } else if expected_hash(ps, token) != lower(hash) {
        Err("initData signature mismatch"@)
    } else {
        match value_of(sorted_pairs(ps), "auth_date"@) {
            None => Err("initData has no auth_date"@),
            Some(d) => match parse_i64_spec(d) {
                None => Err("initData has no auth_date"@),
                Some(date) => if now - date > MAX_AGE_SECONDS {
                    Err("initData expired"@)
                } else {
                    match value_of(sorted_pairs(ps), "user"@) {
                        None => Err("initData has no user"@),
                        Some(u) => match json_user_id_spec(u) {
                            Err(e) => Err(e),
                            Ok(None) => Err("user has no id"@),
                            Ok(Some(id)) => Ok(id),
                        },
                    }
                },
            },
        }
    }
}

fn pair_less(a: &(String, String), b: &(String, String)) -> (r: bool)
    ensures
        r == pair_lt((a.0@, a.1@), (b.0@, b.1@)),
{
    str_lt(a.0.as_str(), b.0.as_str()) || (str_eq(a.0.as_str(), b.0.as_str()) && str_lt(a.1.as_str(), b.1.as_str()))
}

pub open spec fn pair_views(ps: Seq<(String, String)>) -> Seq<Pair> {
    ps.map_values(|p: (String, String)| (p.0@, p.1@))
}

fn err_text(s: &str) -> (r: Result<i64, String>)
    ensures
        r is Err && r->Err_0@ == s@,
{
    Err(s.to_owned())
}

fn find_value(ps: &Vec<(String, String)>, key: &str) -> (r: Option<String>)
    ensures
        match r {
            Some(v) => value_of(pair_views(ps@), key@) == Some(v@),
            None => value_of(pair_views(ps@), key@) is None,
        },
{
    let ghost pv = pair_views(ps@);
    let ghost p = |k: int| pv[k].0 == key@;
    let mut k: usize = 0;
    while k < ps.len()
        invariant
            k <= ps.len(),
            pv == pair_views(ps@),
            p == (|k: int| pv[k].0 == key@),
            forall|q: int| 0 <= q < k ==> !#[trigger] p(q),
        decreases ps.len() - k,
    {
        if str_eq(ps[k].0.as_str(), key) {
            assert(p(k as int));
            proof {
                crate::text::lemma_first_idx_is(0, k as int, pv.len() as int, p);
            }
            return Some(ps[k].1.clone());
        }
        assert(!p(k as int));
        k = k + 1;
    }
    proof {
        crate::text::lemma_first_idx_is(0, pv.len() as int, pv.len() as int, p);
    }
    None
}

/// Validate Telegram Mini App `initData` against the bot token at `now`
/// (Unix seconds); the signed-in user's Telegram id, or why not.
pub fn verify_init_data(init_data: &str, bot_token: &str, now: i64) -> (r: Result<i64, String>)
    ensures
        match r {
            Ok(id) => verify_spec(init_data@, bot_token@, now) == Ok::<i64, Seq<char>>(id),
            Err(e) => verify_spec(init_data@, bot_token@, now) == Err::<i64, Seq<char>>(e@),
        },
{
    let all = form_pairs(init_data);
    let ghost av = pair_views(all@);
    assert(av == form_pairs_spec(init_data@));
    // split off the hash
    let mut pairs: Vec<(String, String)> = Vec::new();
    let mut hash = String::new();
    let mut k: usize = 0;
    while k < all.len()
        invariant
            k <= all.len(),
            av == pair_views(all@),
            pair_views(pairs@) == signed_pairs(av.take(k as int)),
            hash@ == provided_hash(av.take(k as int)),
        decreases all.len() - k,
    {
        assert(av.take(k + 1).drop_last() =~= av.take(k as int));
        assert(av.take(k + 1).last() == av[k as int]);
        if str_eq(all[k].0.as_str(), "hash") {
            hash = all[k].1.clone();
        } else {
            let ghost before = pairs@;
            pairs.push((all[k].0.clone(), all[k].1.clone()));
            assert(pair_views(pairs@) =~= pair_views(before).push(av[k as int]));
        }
        k = k + 1;
    }
    assert(av.take(all.len() as int) =~= av);
    if chars_of(hash.as_str()).len() == 0 {
        return err_text("initData has no hash");
    }
    let ghost ps = pair_views(pairs@);
    // sort the signed pairs
    let mut sorted: Vec<(String, String)> = Vec::new();
    let mut i: usize = 0;
    while i < pairs.len()
        invariant
            i <= pairs.len(),
            ps == pair_views(pairs@),
            pair_views(sorted@) == sorted_pairs(ps.take(i as int)),
        decreases pairs.len() - i,
    {
        assert(ps.take(i + 1).drop_last() =~= ps.take(i as int));
        assert(ps.take(i + 1).last() == ps[i as int]);
        let x = &pairs[i];
        let ghost sv = pair_views(sorted@);
        let ghost pred = after(sv, (x.0@, x.1@));
        let mut pos: usize = 0;
        while pos < sorted.len() && !pair_less(x, &sorted[pos])
            invariant
                pos <= sorted.len(),
                sv == pair_views(sorted@),
                pred == after(sv, (x.0@, x.1@)),
                forall|q: int| 0 <= q < pos ==> !#[trigger] pred(q),
            decreases sorted.len() - pos,
        {
            pos = pos + 1;
        }
        proof {
            crate::text::lemma_first_idx_is(0, pos as int, sv.len() as int, pred);
        }
        sorted.insert(pos, (x.0.clone(), x.1.clone()));
        assert(pair_views(sorted@) =~= sv.insert(pos as int, (x.0@, x.1@)));
        i = i + 1;
    }
    assert(ps.take(pairs.len() as int) =~= ps);
    // the check string
    let ghost lines = sorted_pairs(ps).map_values(|p: Pair| p.0 + "="@ + p.1);
    let mut check = String::new();
    let mut j: usize = 0;
    while j < sorted.len()
        invariant
            j <= sorted.len(),
            pair_views(sorted@) == sorted_pairs(ps),
            lines == sorted_pairs(ps).map_values(|p: Pair| p.0 + "="@ + p.1),
            check@ == join(lines.take(j as int), seq!['\n']),
        decreases sorted.len() - j,
    {
        proof {
            lemma_join_push(lines.take(j as int), lines[j as int], seq!['\n']);
            assert(lines.take(j + 1) =~= lines.take(j as int).push(lines[j as int]));
        }
        let ghost before = check@;
        if j > 0 {
            push_str(&mut check, "\n");
            proof {
                reveal_strlit("\n");
            }
        }
        push_str(&mut check, sorted[j].0.as_str());
        push_str(&mut check, "=");
        push_str(&mut check, sorted[j].1.as_str());
        proof {
            assert(pair_views(sorted@)[j as int] == (sorted@[j as int].0@, sorted@[j as int].1@));
            if j > 0 {
                assert(check@ =~= before + seq!['\n'] + lines[j as int]);
            } else {
                assert(check@ =~= lines[j as int]);
            }
        }
        j = j + 1;
    }
    assert(lines.take(sorted.len() as int) =~= lines);
    // the signature
    let secret = hmac_sha256("WebAppData".as_bytes(), bot_token.as_bytes());
    let mac = hmac_sha256(secret.as_slice(), check.as_str().as_bytes());
    let expected = hex_encode(mac.as_slice());
    let given = lowercase(hash.as_str());
    let mut given_s = string_of(&given, 0, given.len());
    assert(given@.subrange(0, given.len() as int) =~= given@);
    if !str_eq(expected.as_str(), given_s.as_str()) {
        return err_text("initData signature mismatch");
    }
    // freshness
    let date = match find_value(&sorted, "auth_date") {
        Some(d) => match parse_i64(d.as_str()) {
            Some(n) => n,
            None => return err_text("initData has no auth_date"),
        },
        None => return err_text("initData has no auth_date"),
    };
    if (now as i128) - (date as i128) > MAX_AGE_SECONDS as i128 {
        return err_text("initData expired");
    }
    // the user
    let user = match find_value(&sorted, "user") {
        Some(u) => u,
        None => return err_text("initData has no user"),
    };
    match json_user_id(user.as_str()) {
        Err(e) => Err(e),
        Ok(None) => err_text("user has no id"),
        Ok(Some(id)) => Ok(id),
    }
}

// --------------------------------------------------------------- access ----

/// A request's authenticated user.
#[derive(Debug)]
pub struct Authed {
    pub user: User,
}

/// A refused request: HTTP status and message.
#[derive(Debug)]
pub struct Denial {
    pub status: u16,
    pub message: String,
}

pub open spec fn denial(r: Result<Authed, Denial>, status: u16, message: Seq<char>) -> bool {
    r is Err && r->Err_0.status == status && r->Err_0.message@ == message
}

fn deny(status: u16, message: &str) -> (r: Result<Authed, Denial>)
    ensures
        denial(r, status, message@),
{
    Err(Denial { status, message: message.to_owned() })
}

pub open spec fn tma_prefix() -> Seq<char> {
    seq!['t', 'm', 'a', ' ']
}

pub open spec fn bearer_prefix() -> Seq<char> {
    seq!['B', 'e', 'a', 'r', 'e', 'r', ' ']
}

/// Authenticate a request by its `Authorization` header at `now`:
/// `tma <initData>` signs in (and on first contact registers) the Telegram
/// user; `Bearer <token>` finds the token's owner; banned users are
/// refused.
pub fn authenticate(
    header: Option<&str>,
    bot_token: &str,
    now: i64,
    users: &mut InMemoryUserRepository,
) -> (r: Result<Authed, Denial>)
    ensures
        match header {
            None => denial(r, 401, "missing Authorization header"@) && final(users)@ == old(users)@,
            Some(h) => if h@.len() >= 4 && h@.take(4) == tma_prefix() {
                match verify_spec(h@.skip(4), bot_token@, now) {
                    Err(e) => denial(r, 401, e) && final(users)@ == old(users)@,
                    Ok(id) => {
                        let u = match user_by_telegram(old(users)@, TelegramId(id)) {
                            Some(u) => u,
                            None => User {
                                id: UserId(old(users)@.len() as u64),
                                telegram_id: TelegramId(id),
                                role: Role::User,
                                added_by: None,
                                display_name: None,
                                is_banned: false,
                                api_token: None,
                            },
                        };
                        &&& final(users)@ == (if user_by_telegram(old(users)@, TelegramId(id)) is Some {
                            old(users)@
                        } else {
                            old(users)@.push(u)
                        })
                        &&& if u.is_banned { denial(r, 403, "banned"@) } else { r is Ok && r->Ok_0.user == u }
                    },
                }
            } else if h@.len() >= 7 && h@.take(7) == bearer_prefix() {
                final(users)@ == old(users)@ && {
                    let token = trimmed(h@.skip(7));
                    let i = crate::user::token_owner(old(users)@, token);
                    if i < old(users)@.len() {
                        if old(users)@[i].is_banned { denial(r, 403, "banned"@) } else { r is Ok && r->Ok_0.user == old(users)@[i] }
                    } else {
                        denial(r, 401, "unknown token — run /apitoken again"@)
                    }
                }
            } else {
                denial(r, 401, "use `tma <initData>` or `Bearer <token>`"@) && final(users)@ == old(users)@
            },
        },
{
    let raw = match header {
        Some(h) => h,
        None => return deny(401, "missing Authorization header"),
    };
    let v = chars_of(raw);
    let user = if starts_with(&v, &['t', 'm', 'a', ' ']) {
        assert(v@.take(4) =~= tma_prefix());
        let init = string_of(&v, 4, v.len());
        assert(v@.subrange(4, v.len() as int) =~= raw@.skip(4));
        let telegram_id = match verify_init_data(init.as_str(), bot_token, now) {
            Ok(id) => TelegramId(id),
            Err(e) => return Err(Denial { status: 401, message: e }),
        };
        match users.find_by_telegram_id(telegram_id) {
            Some(u) => u,
            None => match users.create(telegram_id, Role::User, None, None) {
                Ok(u) => u,
                Err(_) => return deny(500, "user could not be registered"),
            },
        }
    } else if starts_with(&v, &['B', 'e', 'a', 'r', 'e', 'r', ' ']) {
        assert(v@.take(7) =~= bearer_prefix());
        let rest = string_of(&v, 7, v.len());
        assert(v@.subrange(7, v.len() as int) =~= raw@.skip(7));
        let rv = chars_of(rest.as_str());
        let (a, b) = trim_bounds(&rv);
        let token = string_of(&rv, a, b);
        match users.find_by_api_token(token.as_str()) {
            Some(u) => u,
            None => return deny(401, "unknown token — run /apitoken again"),
        }
    } else {
        return deny(401, "use `tma <initData>` or `Bearer <token>`");
    };
    if user.is_banned {
        return deny(403, "banned");
    }
    Ok(Authed { user })
}

pub open spec fn requires_text(role: Role) -> Seq<char> {
    "requires "@ + role_name(role)
}

/// The user's role is at least `at_least`; else 403 naming the role.
pub fn require(authed: &Authed, at_least: Role) -> (r: Result<(), Denial>)
    ensures
        rank(authed.user.role) >= rank(at_least) ==> r is Ok,
        rank(authed.user.role) < rank(at_least) ==> r is Err && r->Err_0.status == 403
            && r->Err_0.message@ == requires_text(at_least),
{
    if authed.user.role.at_least(at_least) {
        Ok(())
    } else {
        let mut message = String::new();
        push_str(&mut message, "requires ");
        let name = at_least.to_string();
        push_str(&mut message, name.as_str());
        Err(Denial { status: 403, message })
    }
}

} // verus!
