//! Users, their roles and identifiers, and the in-memory user store.

use vstd::prelude::*;
use crate::text::{chars_of, clone_opt_string, first_idx, lemma_first_idx, lemma_first_idx_is, push_chars};

verus! {

/// A User's permission level. Hierarchy (higher includes lower):
/// `Owner > Moderator > User`.
#[derive(Debug, Clone, Copy, PartialEq, Eq, Structural)]
pub enum Role {
    User,
    Moderator,
    Owner,
}

/// The position of a role in the hierarchy.
pub open spec fn rank(r: Role) -> nat {
    match r {
        Role::User => 0,
        Role::Moderator => 1,
        Role::Owner => 2,
    }
}

pub open spec fn role_name(r: Role) -> Seq<char> {
    match r {
        Role::User => seq!['u', 's', 'e', 'r'],
        Role::Moderator => seq!['m', 'o', 'd', 'e', 'r', 'a', 't', 'o', 'r'],
        Role::Owner => seq!['o', 'w', 'n', 'e', 'r'],
    }
}

impl Role {
    /// `self >= at_least` in the hierarchy.
    pub fn at_least(&self, at_least: Role) -> (b: bool)
        ensures
            b == (rank(*self) >= rank(at_least)),
    {
        let mine: u8 = match self {
            Role::User => 0,
            Role::Moderator => 1,
            Role::Owner => 2,
        };
        let other: u8 = match at_least {
            Role::User => 0,
            Role::Moderator => 1,
            Role::Owner => 2,
        };
        mine >= other
    }

    /// The lowercase name (`user`, `moderator`, `owner`).
    pub fn to_string(&self) -> (s: String)
        ensures
            s@ == role_name(*self),
    {
        let mut s = String::new();
        match self {
            Role::User => push_chars(&mut s, &['u', 's', 'e', 'r']),
            Role::Moderator => push_chars(&mut s, &['m', 'o', 'd', 'e', 'r', 'a', 't', 'o', 'r']),
            Role::Owner => push_chars(&mut s, &['o', 'w', 'n', 'e', 'r']),
        }
        s
    }

    /// The role named exactly `s`.
    pub fn parse(s: &str) -> (r: Result<Role, RoleParseError>)
        ensures
            match r {
                Ok(role) => role_name(role) == s@,
                Err(e) => e.0@ == s@ && forall|x: Role| role_name(x) != s@,
            },
    {
        let v = chars_of(s);
        let user = ['u', 's', 'e', 'r'];
        let moderator = ['m', 'o', 'd', 'e', 'r', 'a', 't', 'o', 'r'];
        let owner = ['o', 'w', 'n', 'e', 'r'];
        if same_chars(&v, &user) {
            return Ok(Role::User);
        }
        if same_chars(&v, &moderator) {
            return Ok(Role::Moderator);
        }
        if same_chars(&v, &owner) {
            return Ok(Role::Owner);
        }
        let mut name = String::new();
        crate::text::push_str(&mut name, s);
        assert forall|x: Role| role_name(x) != s@ by {
            match x {
                Role::User => assert(user@ == role_name(Role::User)),
                Role::Moderator => assert(moderator@ == role_name(Role::Moderator)),
                Role::Owner => assert(owner@ == role_name(Role::Owner)),
            }
        }
        Err(RoleParseError(name))
    }
}

impl std::str::FromStr for Role {
    type Err = RoleParseError;

    fn from_str(s: &str) -> (r: Result<Role, RoleParseError>)
        ensures
            match r {
                Ok(role) => role_name(role) == s@,
                Err(e) => e.0@ == s@ && forall|x: Role| role_name(x) != s@,
            },
    {
        Role::parse(s)
    }
}

fn same_chars(v: &Vec<char>, w: &[char]) -> (b: bool)
    ensures
        b == (v@ == w@),
{
    if v.len() != w.len() {
        return false;
    }
    let mut k: usize = 0;
    while k < v.len()
        invariant
            k <= v.len() == w.len(),
            forall|i: int| 0 <= i < k ==> v@[i] == w@[i],
        decreases v.len() - k,
    {
        if v[k] != w[k] {
            return false;
        }
        k = k + 1;
    }
    assert(v@ =~= w@);
    true
}

/// A role name that is none of `user`, `moderator`, `owner`.
#[derive(Debug)]
pub struct RoleParseError(pub String);

/// The internal ID for the user. Program-managed.
#[derive(Debug, Clone, Copy, PartialEq, Eq, Hash, Structural)]
pub struct UserId(pub u64);

/// A Telegram numeric user ID. Platform-native identifier.
#[derive(Debug, Clone, Copy, PartialEq, Eq, Hash, Structural)]
pub struct TelegramId(pub i64);

/// Someone who interacts with the system: exactly one role, identified
/// externally by their Telegram id. `added_by` is whoever promoted them;
/// `is_banned` blocks submissions only.
#[derive(Debug, Clone)]
pub struct User {
    pub id: UserId,
    pub telegram_id: TelegramId,
    pub role: Role,
    pub added_by: Option<UserId>,
    pub display_name: Option<String>,
    pub is_banned: bool,
    pub api_token: Option<String>,
}

#[derive(Debug)]
pub enum UserRepositoryError {
    NotCreated(String),
    NotChanged(String),
}


/// A field-for-field copy of a user.
pub fn clone_user(u: &User) -> (r: User)
    ensures
        r == *u,
{
    User {
        id: u.id,
        telegram_id: u.telegram_id,
        role: u.role,
        added_by: u.added_by,
        display_name: clone_opt_string(&u.display_name),
        is_banned: u.is_banned,
        api_token: clone_opt_string(&u.api_token),
    }
}

/// The in-memory user store: user `n` has id `n`, Telegram ids are unique.
pub struct InMemoryUserRepository {
    users: Vec<User>,
}

impl View for InMemoryUserRepository {
    type V = Seq<User>;

    closed spec fn view(&self) -> Seq<User> {
        self.users@
    }
}

pub open spec fn users_wf(us: Seq<User>) -> bool {
    &&& forall|i: int| 0 <= i < us.len() ==> (#[trigger] us[i]).id.0 == i
    &&& forall|i: int, j: int|
        0 <= i < us.len() && 0 <= j < us.len() && i != j ==> us[i].telegram_id != us[j].telegram_id
}

/// The user registered under Telegram id `tg`, if any.
pub open spec fn user_by_telegram(us: Seq<User>, tg: TelegramId) -> Option<User> {
    if exists|i: int| 0 <= i < us.len() && us[i].telegram_id == tg {
        let i = choose|i: int| 0 <= i < us.len() && us[i].telegram_id == tg;
        Some(us[i])
    } else {
        None
    }
}

/// The user with id `id`, if any.
pub open spec fn user_by_id(us: Seq<User>, id: UserId) -> Option<User> {
    if id.0 < us.len() { Some(us[id.0 as int]) } else { None }
}

impl InMemoryUserRepository {
    #[verifier::type_invariant]
    closed spec fn wf(self) -> bool {
        users_wf(self.users@)
    }

    pub fn new() -> (r: Self)
        ensures
            r@ == Seq::<User>::empty(),
    {
        InMemoryUserRepository { users: Vec::new() }
    }

    fn index_of_telegram(&self, tg: TelegramId) -> (r: Option<usize>)
        ensures
            match r {
                Some(i) => i < self@.len() && self@[i as int].telegram_id == tg,
                None => forall|i: int| 0 <= i < self@.len() ==> self@[i].telegram_id != tg,
            },
    {
        let mut k: usize = 0;
        while k < self.users.len()
            invariant
                k <= self.users.len(),
                forall|i: int| 0 <= i < k ==> self.users@[i].telegram_id != tg,
            decreases self.users.len() - k,
        {
            if self.users[k].telegram_id == tg {
                return Some(k);
            }
            k = k + 1;
        }
        None
    }

    /// Register a new user; refused when the Telegram id is taken.
    pub fn create(
        &mut self,
        telegram_id: TelegramId,
        role: Role,
        added_by: Option<UserId>,
        display_name: Option<String>,
    ) -> (r: Result<User, UserRepositoryError>)
        ensures
            match r {
                Ok(u) => user_by_telegram(old(self)@, telegram_id) is None
                    && final(self)@ == old(self)@.push(u)
                    && u == (User {
                        id: UserId(old(self)@.len() as u64),
                        telegram_id,
                        role,
                        added_by,
                        display_name,
                        is_banned: false,
                        api_token: None,
                    }),
                Err(_) => user_by_telegram(old(self)@, telegram_id) is Some && final(self)@ == old(self)@,
            },
    {
        proof {
            use_type_invariant(&*self);
        }
        match self.index_of_telegram(telegram_id) {
            Some(_) => {
                return Err(UserRepositoryError::NotCreated(String::new()));
            },
            None => {},
        }
        let user = User {
            id: UserId(self.users.len() as u64),
            telegram_id,
            role,
            added_by,
            display_name,
            is_banned: false,
            api_token: None,
        };
        let copy = clone_user(&user);
        let mut users: Vec<User> = Vec::new();
        std::mem::swap(&mut users, &mut self.users);
        users.push(copy);
        self.users = users;
        Ok(user)
    }

    pub fn find_by_id(&self, id: UserId) -> (r: Option<User>)
        ensures
            r == user_by_id(self@, id),
    {
        if id.0 < self.users.len() as u64 {
            Some(clone_user(&self.users[id.0 as usize]))
        } else {
            None
        }
    }

    pub fn find_by_telegram_id(&self, telegram_id: TelegramId) -> (r: Option<User>)
        ensures
            r == user_by_telegram(self@, telegram_id),
            r is Some ==> r->0.id.0 < self@.len() && self@[r->0.id.0 as int] == r->0,
    {
        proof {
            use_type_invariant(self);
        }
        match self.index_of_telegram(telegram_id) {
            Some(k) => {
                proof {
                    let c = choose|i: int| 0 <= i < self@.len() && self@[i].telegram_id == telegram_id;
                    assert(c == k);
                }
                Some(clone_user(&self.users[k]))
            },
            None => None,
        }
    }

    /// Replace user `i` by `u`, which keeps its id and Telegram id.
    fn replace_at(&mut self, i: usize, u: User)
        requires
            i < old(self)@.len(),
            u.id == old(self)@[i as int].id,
            u.telegram_id == old(self)@[i as int].telegram_id,
        ensures
            final(self)@ == old(self)@.update(i as int, u),
    {
        proof {
            use_type_invariant(&*self);
        }
        let mut users: Vec<User> = Vec::new();
        std::mem::swap(&mut users, &mut self.users);
        users.set(i, u);
        self.users = users;
    }

    pub fn change_role(&mut self, id: UserId, new_role: Role) -> (r: Result<User, UserRepositoryError>)
        ensures
            match r {
                Ok(u) => id.0 < old(self)@.len()
                    && u == (User { role: new_role, ..old(self)@[id.0 as int] })
                    && final(self)@ == old(self)@.update(id.0 as int, u),
                Err(_) => id.0 >= old(self)@.len() && final(self)@ == old(self)@,
            },
    {
        if id.0 >= self.users.len() as u64 {
            return Err(UserRepositoryError::NotChanged(String::new()));
        }
        let i = id.0 as usize;
        let old_user = clone_user(&self.users[i]);
        let u = User { role: new_role, ..old_user };
        let copy = clone_user(&u);
        self.replace_at(i, copy);
        Ok(u)
    }

    /// Refresh the cached Telegram display name.
    pub fn set_display_name(&mut self, id: UserId, display_name: Option<String>) -> (r: Result<(), UserRepositoryError>)
        ensures
            match r {
                Ok(_) => id.0 < old(self)@.len()
                    && final(self)@ == old(self)@.update(id.0 as int, User { display_name, ..old(self)@[id.0 as int] }),
                Err(_) => id.0 >= old(self)@.len() && final(self)@ == old(self)@,
            },
    {
        if id.0 >= self.users.len() as u64 {
            return Err(UserRepositoryError::NotChanged(String::new()));
        }
        let i = id.0 as usize;
        let old_user = clone_user(&self.users[i]);
        self.replace_at(i, User { display_name, ..old_user });
        Ok(())
    }

    /// Ban/unban a user from submitting.
    pub fn set_banned(&mut self, id: UserId, banned: bool) -> (r: Result<(), UserRepositoryError>)
        ensures
            match r {
                Ok(_) => id.0 < old(self)@.len()
                    && final(self)@ == old(self)@.update(id.0 as int, User { is_banned: banned, ..old(self)@[id.0 as int] }),
                Err(_) => id.0 >= old(self)@.len() && final(self)@ == old(self)@,
            },
    {
        if id.0 >= self.users.len() as u64 {
            return Err(UserRepositoryError::NotChanged(String::new()));
        }
        let i = id.0 as usize;
        let old_user = clone_user(&self.users[i]);
        self.replace_at(i, User { is_banned: banned, ..old_user });
        Ok(())
    }

    /// Rotate (or clear) the user's personal API token.
    pub fn set_api_token(&mut self, id: UserId, token: Option<String>) -> (r: Result<(), UserRepositoryError>)
        ensures
            match r {
                Ok(_) => id.0 < old(self)@.len()
                    && final(self)@ == old(self)@.update(id.0 as int, User { api_token: token, ..old(self)@[id.0 as int] }),
                Err(_) => id.0 >= old(self)@.len() && final(self)@ == old(self)@,
            },
    {
        if id.0 >= self.users.len() as u64 {
            return Err(UserRepositoryError::NotChanged(String::new()));
        }
        let i = id.0 as usize;
        let old_user = clone_user(&self.users[i]);
        self.replace_at(i, User { api_token: token, ..old_user });
        Ok(())
    }

    /// The first user holding `token` as their API token.
    pub fn find_by_api_token(&self, token: &str) -> (r: Option<User>)
        ensures
            r == (if token_owner(self@, token@) < self@.len() {
                Some(self@[token_owner(self@, token@)])
            } else {
                None
            }),
    {
        let ghost p = holds_token(self@, token@);
        let mut k: usize = 0;
        while k < self.users.len()
            invariant
                k <= self.users.len(),
                p == holds_token(self@, token@),
                forall|i: int| 0 <= i < k ==> !#[trigger] p(i),
            decreases self.users.len() - k,
        {
            let hit = match &self.users[k].api_token {
                Some(t) => crate::text::str_eq(t.as_str(), token),
                None => false,
            };
            if hit {
                proof {
                    lemma_first_idx_is(0, k as int, self@.len() as int, p);
                }
                return Some(clone_user(&self.users[k]));
            }
            assert(!p(k as int));
            k = k + 1;
        }
        proof {
            lemma_first_idx_is(0, k as int, self@.len() as int, p);
        }
        None
    }

    /// Every user with the given role, in id order.
    pub fn list_by_role(&self, role: Role) -> (r: Vec<User>)
        ensures
            r@ == users_with_role(self@, role),
    {
        let mut r: Vec<User> = Vec::new();
        let mut k: usize = 0;
        while k < self.users.len()
            invariant
                k <= self.users.len(),
                r@ == users_with_role(self@.take(k as int), role),
            decreases self.users.len() - k,
        {
            assert(self@.take(k + 1).drop_last() =~= self@.take(k as int));
            if self.users[k].role == role {
                r.push(clone_user(&self.users[k]));
            }
            k = k + 1;
        }
        assert(self@.take(self.users.len() as int) =~= self@);
        r
    }
}

pub open spec fn holds_token(us: Seq<User>, token: Seq<char>) -> spec_fn(int) -> bool {
    |i: int| us[i].api_token is Some && us[i].api_token->0@ == token
}

/// Index of the first user holding `token`, or the user count when none.
pub open spec fn token_owner(us: Seq<User>, token: Seq<char>) -> int {
    first_idx(0, us.len() as int, holds_token(us, token))
}

/// The users of `us` with role `role`, in order.
pub open spec fn users_with_role(us: Seq<User>, role: Role) -> Seq<User>
    decreases us.len(),
{
    if us.len() == 0 {
        seq![]
    } else {
        let prev = users_with_role(us.drop_last(), role);
        if us.last().role == role { prev.push(us.last()) } else { prev }
    }
}

} // verus!
