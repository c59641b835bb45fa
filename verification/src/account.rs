use vstd::prelude::*;

use crate::error::ServiceError;
use crate::role::Role;
use crate::trusted::{bcrypt_accepts, fresh_uuid, hash_password, now_rfc3339};

verus! {

/// Spec-level image of an account.
pub struct AccountV {
    pub id: Seq<char>,
    pub username: Seq<char>,
    pub password_hash: Seq<char>,
    pub role: Role,
    pub active: bool,
    pub created_at: Seq<char>,
}

/// A login identity. The `username` is unique across live accounts and
/// immutable after creation; `password_hash` is a one-way credential that
/// never leaves the store in a public view (see [`AccountPublic`]).
#[derive(Debug)]
pub struct Account {
    pub id: String,
    pub username: String,
    pub password_hash: String,
    pub role: Role,
    pub active: bool,
    pub created_at: String,
}

impl View for Account {
    type V = AccountV;

    open spec fn view(&self) -> AccountV {
        AccountV {
            id: self.id@,
            username: self.username@,
            password_hash: self.password_hash@,
            role: self.role,
            active: self.active,
            created_at: self.created_at@,
        }
    }
}

impl Clone for Account {
    fn clone(&self) -> (r: Self)
        ensures
            r == *self,
    {
        Account {
            id: self.id.clone(),
            username: self.username.clone(),
            password_hash: self.password_hash.clone(),
            role: self.role,
            active: self.active,
            created_at: self.created_at.clone(),
        }
    }
}

/// Spec-level image of an account's public view.
pub struct AccountPublicV {
    pub id: Seq<char>,
    pub username: Seq<char>,
    pub role: Role,
    pub active: bool,
}

/// The public view of an account: everything but the credential hash.
#[derive(Debug)]
pub struct AccountPublic {
    pub id: String,
    pub username: String,
    pub role: Role,
    pub active: bool,
}

impl View for AccountPublic {
    type V = AccountPublicV;

    open spec fn view(&self) -> AccountPublicV {
        AccountPublicV {
            id: self.id@,
            username: self.username@,
            role: self.role,
            active: self.active,
        }
    }
}

impl Clone for AccountPublic {
    fn clone(&self) -> (r: Self)
        ensures
            r == *self,
    {
        AccountPublic {
            id: self.id.clone(),
            username: self.username.clone(),
            role: self.role,
            active: self.active,
        }
    }
}

/// What a public view shows of an account.
pub open spec fn public_of(a: AccountV) -> AccountPublicV {
    AccountPublicV { id: a.id, username: a.username, role: a.role, active: a.active }
}

impl Account {
    /// The public view of this account; the credential hash stays behind.
    pub fn to_public(&self) -> (r: AccountPublic)
        ensures
            r@ == public_of(self@),
    {
        AccountPublic {
            id: self.id.clone(),
            username: self.username.clone(),
            role: self.role,
            active: self.active,
        }
    }
}

/// Whether some account in `s` carries this exact (case-sensitive) username.
pub open spec fn has_username(s: Seq<AccountV>, username: Seq<char>) -> bool {
    exists|i: int| 0 <= i < s.len() && s[i].username == username
}

/// The index of the first account with this username; `s.len()` if none.
pub open spec fn idx_of_username(s: Seq<AccountV>, username: Seq<char>) -> int
    decreases s.len(),
{
    if s.len() == 0 {
        0
    } else if s[0].username == username {
        0
    } else {
        1 + idx_of_username(s.drop_first(), username)
    }
}

/// Whether some account in `s` carries this id.
pub open spec fn has_account_id(s: Seq<AccountV>, id: Seq<char>) -> bool {
    exists|i: int| 0 <= i < s.len() && s[i].id == id
}

/// The index of the first account with this id; `s.len()` if none.
pub open spec fn idx_of_account_id(s: Seq<AccountV>, id: Seq<char>) -> int
    decreases s.len(),
{
    if s.len() == 0 {
        0
    } else if s[0].id == id {
        0
    } else {
        1 + idx_of_account_id(s.drop_first(), id)
    }
}

/// `idx_of_username` points at the first account with the username when one
/// exists, and at the end of the sequence when none does.
pub proof fn lemma_idx_of_username(s: Seq<AccountV>, username: Seq<char>)
    ensures
        !has_username(s, username) ==> idx_of_username(s, username) == s.len(),
        has_username(s, username) ==> 0 <= idx_of_username(s, username) < s.len(),
        has_username(s, username) ==> s[idx_of_username(s, username)].username == username,
        forall|j: int|
            0 <= j < idx_of_username(s, username) && j < s.len() ==> s[j].username != username,
    decreases s.len(),
{
    if s.len() == 0 {
    } else if s[0].username == username {
    } else {
        let rest = s.drop_first();
        lemma_idx_of_username(rest, username);
        assert(forall|i: int| 0 <= i < rest.len() ==> rest[i] == s[i + 1]);
        if has_username(s, username) {
            let i = choose|i: int| 0 <= i < s.len() && s[i].username == username;
            assert(rest[i - 1] == s[i]);
            assert(has_username(rest, username));
        }
        if has_username(rest, username) {
            let i = choose|i: int| 0 <= i < rest.len() && rest[i].username == username;
            assert(s[i + 1].username == username);
            assert(has_username(s, username));
        }
        assert forall|j: int|
            0 <= j < idx_of_username(s, username) && j < s.len() implies s[j].username
            != username by {
            if j >= 1 {
                assert(s[j] == rest[j - 1]);
            }
        }
    }
}

/// `idx_of_account_id` points at the first account with the id when one
/// exists, and at the end of the sequence when none does.
pub proof fn lemma_idx_of_account_id(s: Seq<AccountV>, id: Seq<char>)
    ensures
        !has_account_id(s, id) ==> idx_of_account_id(s, id) == s.len(),
        has_account_id(s, id) ==> 0 <= idx_of_account_id(s, id) < s.len(),
        has_account_id(s, id) ==> s[idx_of_account_id(s, id)].id == id,
        forall|j: int| 0 <= j < idx_of_account_id(s, id) && j < s.len() ==> s[j].id != id,
    decreases s.len(),
{
    if s.len() == 0 {
    } else if s[0].id == id {
    } else {
        let rest = s.drop_first();
        lemma_idx_of_account_id(rest, id);
        assert(forall|i: int| 0 <= i < rest.len() ==> rest[i] == s[i + 1]);
        if has_account_id(s, id) {
            let i = choose|i: int| 0 <= i < s.len() && s[i].id == id;
            assert(rest[i - 1] == s[i]);
            assert(has_account_id(rest, id));
        }
        if has_account_id(rest, id) {
            let i = choose|i: int| 0 <= i < rest.len() && rest[i].id == id;
            assert(s[i + 1].id == id);
            assert(has_account_id(s, id));
        }
        assert forall|j: int|
            0 <= j < idx_of_account_id(s, id) && j < s.len() implies s[j].id != id by {
            if j >= 1 {
                assert(s[j] == rest[j - 1]);
            }
        }
    }
}

/// The account `update` produces: a provided field replaces the stored one,
/// an omitted field is left alone, everything else is untouched.
pub open spec fn apply_update(a: AccountV, active: Option<bool>, role: Option<Role>) -> AccountV {
    AccountV {
        id: a.id,
        username: a.username,
        password_hash: a.password_hash,
        role: match role {
            Some(r) => r,
            None => a.role,
        },
        active: match active {
            Some(b) => b,
            None => a.active,
        },
        created_at: a.created_at,
    }
}

/// Usernames are pairwise distinct, and so are ids: each username and each id
/// names at most one account.
pub open spec fn wf_accounts(s: Seq<AccountV>) -> bool {
    &&& forall|i: int, j: int| 0 <= i < j < s.len() ==> s[i].username != s[j].username
    &&& forall|i: int, j: int| 0 <= i < j < s.len() ==> s[i].id != s[j].id
}

/// The mutable collection of accounts. Usernames are unique across the
/// collection ([`AccountStore::wf`]); every operation preserves that.
pub struct AccountStore {
    accounts: Vec<Account>,
}

impl View for AccountStore {
    type V = Seq<AccountV>;

    closed spec fn view(&self) -> Seq<AccountV> {
        self.accounts@.map_values(|a: Account| a@)
    }
}

impl AccountStore {
    /// See [`wf_accounts`].
    pub open spec fn wf(&self) -> bool {
        wf_accounts(self@)
    }

    /// An empty store.
    pub fn new() -> (r: Self)
        ensures
            r@.len() == 0,
            r.wf(),
    {
        AccountStore { accounts: Vec::new() }
    }

    /// The index of the first account with this username, if any.
    fn position_of_username(&self, username: &String) -> (r: Option<usize>)
        ensures
            r is Some <==> has_username(self@, username@),
            r matches Some(i) ==> 0 <= i < self@.len() && i as int == idx_of_username(
                self@,
                username@,
            ) && self@[i as int].username == username@,
    {
        let mut i: usize = 0;
        while i < self.accounts.len()
            invariant
                0 <= i <= self.accounts.len(),
                self@.len() == self.accounts@.len(),
                forall|j: int| 0 <= j < i ==> self@[j].username != username@,
            decreases self.accounts.len() - i,
        {
            proof {
                assert(self@[i as int] == self.accounts@[i as int]@);
            }
            if self.accounts[i].username == *username {
                proof {
                    assert(self@[i as int].username == username@);
                    assert(has_username(self@, username@));
                    lemma_idx_of_username(self@, username@);
                    let idx = idx_of_username(self@, username@);
                    assert(!(idx < i) && !(i < idx));
                }
                return Some(i);
            }
            i += 1;
        }
        proof {
            if has_username(self@, username@) {
                let w = choose|w: int| 0 <= w < self@.len() && self@[w].username == username@;
                assert(self@[w].username != username@);
            }
        }
        None
    }

    /// The index of the first account with this id, if any.
    fn position_of_id(&self, id: &String) -> (r: Option<usize>)
        ensures
            r is Some <==> has_account_id(self@, id@),
            r matches Some(i) ==> 0 <= i < self@.len() && i as int == idx_of_account_id(
                self@,
                id@,
            ) && self@[i as int].id == id@,
    {
        let mut i: usize = 0;
        while i < self.accounts.len()
            invariant
                0 <= i <= self.accounts.len(),
                self@.len() == self.accounts@.len(),
                forall|j: int| 0 <= j < i ==> self@[j].id != id@,
            decreases self.accounts.len() - i,
        {
            proof {
                assert(self@[i as int] == self.accounts@[i as int]@);
            }
            if self.accounts[i].id == *id {
                proof {
                    assert(self@[i as int].id == id@);
                    assert(has_account_id(self@, id@));
                    lemma_idx_of_account_id(self@, id@);
                    let idx = idx_of_account_id(self@, id@);
                    assert(!(idx < i) && !(i < idx));
                }
                return Some(i);
            }
            i += 1;
        }
        proof {
            if has_account_id(self@, id@) {
                let w = choose|w: int| 0 <= w < self@.len() && self@[w].id == id@;
                assert(self@[w].id != id@);
            }
        }
        None
    }

    /// Looks an account up by its exact username.
    pub fn find_by_username(&self, username: &str) -> (r: Option<Account>)
        ensures
            r is Some <==> has_username(self@, username@),
            r matches Some(a) ==> a@ == self@[idx_of_username(self@, username@)],
    {
        let u = username.to_owned();
        match self.position_of_username(&u) {
            Some(i) => Some(self.accounts[i].clone()),
            None => None,
        }
    }

    /// Looks an account up by its id.
    pub fn find_by_id(&self, id: &str) -> (r: Option<Account>)
        ensures
            r is Some <==> has_account_id(self@, id@),
            r matches Some(a) ==> a@ == self@[idx_of_account_id(self@, id@)],
    {
        let key = id.to_owned();
        match self.position_of_id(&key) {
            Some(i) => Some(self.accounts[i].clone()),
            None => None,
        }
    }

    /// On a store with no accounts, creates the single well-known bootstrap
    /// administrator (active, role `Admin`). On any other store this does
    /// nothing, so a restart never duplicates the account.
    pub fn bootstrap_admin(&mut self)
        requires
            old(self).wf(),
        ensures
            final(self).wf(),
            old(self)@.len() > 0 ==> final(self)@ == old(self)@,
            old(self)@.len() == 0 ==> final(self)@.len() == 1,
            old(self)@.len() == 0 ==> final(self)@[0].username == "admin"@,
            old(self)@.len() == 0 ==> final(self)@[0].role == Role::Admin,
            old(self)@.len() == 0 ==> final(self)@[0].active,
            old(self)@.len() == 0 ==> bcrypt_accepts("admin123"@, final(self)@[0].password_hash),
    {
        if self.accounts.len() > 0 {
            return ;
        }
        let admin = Account {
            id: fresh_uuid(),
            username: "admin".to_owned(),
            password_hash: hash_password("admin123"),
            role: Role::Admin,
            active: true,
            created_at: now_rfc3339(),
        };
        let ghost a = admin@;
        self.accounts.push(admin);
        proof {
            assert(final(self)@ =~= old(self)@.push(a));
        }
    }

    /// Adds a fully built account. Exact: it goes in if and only if neither
    /// its username nor its id is taken, and a refusal is a `Conflict` that
    /// changes nothing. [`AccountStore::create`] builds the account; this is
    /// the part that is a pure function of it.
    pub fn add_account(&mut self, account: Account) -> (r: Result<Account, ServiceError>)
        requires
            old(self).wf(),
        ensures
            final(self).wf(),
            r is Ok <==> !has_username(old(self)@, account@.username) && !has_account_id(
                old(self)@,
                account@.id,
            ),
            r is Err ==> r == Err::<Account, ServiceError>(ServiceError::Conflict) && final(self)@
                == old(self)@,
            r matches Ok(a) ==> a@ == account@ && final(self)@ == old(self)@.push(account@),
    {
        if let Some(_) = self.position_of_username(&account.username) {
            return Err(ServiceError::Conflict);
        }
        if let Some(_) = self.position_of_id(&account.id) {
            return Err(ServiceError::Conflict);
        }
        let result = account.clone();
        let ghost av = account@;
        self.accounts.push(account);
        proof {
            assert(self@ =~= old(self)@.push(av));
            assert forall|i: int, j: int|
                0 <= i < j < self@.len() implies self@[i].username != self@[j].username
                && self@[i].id != self@[j].id by {
                if j == self@.len() - 1 {
                    assert(self@[i] == old(self)@[i]);
                } else {
                    assert(self@[i] == old(self)@[i] && self@[j] == old(self)@[j]);
                }
            }
        }
        Ok(result)
    }

    /// Creates an account with a fresh random id, the hash of `password` as
    /// its credential, and `active` set. A taken username is rejected with
    /// `Conflict`; the only other refusal, also a `Conflict`, is a fresh
    /// random id that is already in use. Either way usernames and ids stay
    /// unique.
    pub fn create(&mut self, username: &str, password: &str, role: Role) -> (r: Result<
        Account,
        ServiceError,
    >)
        requires
            old(self).wf(),
        ensures
            final(self).wf(),
            has_username(old(self)@, username@) ==> r == Err::<Account, ServiceError>(
                ServiceError::Conflict,
            ),
            r is Err ==> r == Err::<Account, ServiceError>(ServiceError::Conflict) && final(self)@
                == old(self)@,
            r matches Ok(a) ==> !has_username(old(self)@, username@) && !has_account_id(
                old(self)@,
                a@.id,
            ) && final(self)@ == old(self)@.push(a@) && a@.username == username@ && a@.role == role
                && a@.active && bcrypt_accepts(password@, a@.password_hash),
    {
        let u = username.to_owned();
        if let Some(_) = self.position_of_username(&u) {
            return Err(ServiceError::Conflict);
        }
        let hashed = hash_password(password);
        let account = Account {
            id: fresh_uuid(),
            username: u,
            password_hash: hashed,
            role,
            active: true,
            created_at: now_rfc3339(),
        };
        self.add_account(account)
    }

    /// Applies the provided fields (`active`, `role`; either may be omitted)
    /// to the account with this id and returns the updated account.
    pub fn update(&mut self, id: &str, active: Option<bool>, role: Option<Role>) -> (r: Result<
        Account,
        ServiceError,
    >)
        requires
            old(self).wf(),
        ensures
            final(self).wf(),
            r is Ok <==> has_account_id(old(self)@, id@),
            r is Err ==> r == Err::<Account, ServiceError>(ServiceError::NotFound) && final(self)@
                == old(self)@,
            r matches Ok(a) ==> a@ == apply_update(
                old(self)@[idx_of_account_id(old(self)@, id@)],
                active,
                role,
            ) && final(self)@ == old(self)@.update(idx_of_account_id(old(self)@, id@), a@),
    {
        let key = id.to_owned();
        let i = match self.position_of_id(&key) {
            Some(i) => i,
            None => {
                return Err(ServiceError::NotFound);
            },
        };
        let stored = &self.accounts[i];
        let updated = Account {
            id: stored.id.clone(),
            username: stored.username.clone(),
            password_hash: stored.password_hash.clone(),
            role: match role {
                Some(r) => r,
                None => stored.role,
            },
            active: match active {
                Some(b) => b,
                None => stored.active,
            },
            created_at: stored.created_at.clone(),
        };
        let result = updated.clone();
        let _ = self.accounts.remove(i);
        self.accounts.insert(i, updated);
        proof {
            assert(final(self)@ =~= old(self)@.update(i as int, result@));
            assert forall|x: int, y: int|
                0 <= x < y < final(self)@.len() implies final(self)@[x].username
                != final(self)@[y].username && final(self)@[x].id != final(self)@[y].id by {
                assert(final(self)@[x].username == old(self)@[x].username);
                assert(final(self)@[y].username == old(self)@[y].username);
                assert(final(self)@[x].id == old(self)@[x].id);
                assert(final(self)@[y].id == old(self)@[y].id);
            }
        }
        Ok(result)
    }

    /// Removes the account with this id. An account can never delete itself:
    /// the requester check runs first, whatever the requester's role.
    pub fn delete(&mut self, id: &str, requester_id: &str) -> (r: Result<(), ServiceError>)
        requires
            old(self).wf(),
        ensures
            final(self).wf(),
            id@ == requester_id@ ==> r == Err::<(), ServiceError>(ServiceError::SelfDeleteForbidden)
                && final(self)@ == old(self)@,
            id@ != requester_id@ && !has_account_id(old(self)@, id@) ==> r == Err::<
                (),
                ServiceError,
            >(ServiceError::NotFound) && final(self)@ == old(self)@,
            id@ != requester_id@ && has_account_id(old(self)@, id@) ==> r is Ok && final(self)@
                == old(self)@.remove(idx_of_account_id(old(self)@, id@)),
    {
        let key = id.to_owned();
        let requester = requester_id.to_owned();
        if key == requester {
            return Err(ServiceError::SelfDeleteForbidden);
        }
        let i = match self.position_of_id(&key) {
            Some(i) => i,
            None => {
                return Err(ServiceError::NotFound);
            },
        };
        let _ = self.accounts.remove(i);
        proof {
            assert(final(self)@ =~= old(self)@.remove(i as int));
            assert forall|x: int, y: int|
                0 <= x < y < final(self)@.len() implies final(self)@[x].username
                != final(self)@[y].username && final(self)@[x].id != final(self)@[y].id by {
                let ox = if x < i as int {
                    x
                } else {
                    x + 1
                };
                let oy = if y < i as int {
                    y
                } else {
                    y + 1
                };
                assert(final(self)@[x] == old(self)@[ox]);
                assert(final(self)@[y] == old(self)@[oy]);
            }
        }
        Ok(())
    }

    /// The public views of all accounts, in store order. No credential hash
    /// is exposed.
    pub fn list(&self) -> (r: Vec<AccountPublic>)
        ensures
            r@.len() == self@.len(),
            forall|i: int| 0 <= i < self@.len() ==> r@[i]@ == public_of(self@[i]),
    {
        let mut out: Vec<AccountPublic> = Vec::new();
        let mut i: usize = 0;
        while i < self.accounts.len()
            invariant
                0 <= i <= self.accounts.len(),
                self@.len() == self.accounts@.len(),
                out@.len() == i,
                forall|j: int| 0 <= j < i ==> out@[j]@ == public_of(self@[j]),
            decreases self.accounts.len() - i,
        {
            proof {
                assert(self@[i as int] == self.accounts@[i as int]@);
            }
            out.push(self.accounts[i].to_public());
            i += 1;
        }
        out
    }

    /// The number of accounts.
    pub fn len(&self) -> (r: usize)
        ensures
            r == self@.len(),
    {
        self.accounts.len()
    }
}

} // verus!
