use vstd::prelude::*;

use crate::account::{
    has_account_id, has_username, idx_of_account_id, idx_of_username, public_of, wf_accounts,
    AccountPublic, AccountPublicV, AccountStore,
};
use crate::codec::{
    encode_file_spec, encode_records, kept_rows, load_store, max_id, parse_file_spec,
    parse_records,
};
use crate::error::ServiceError;
use crate::record::{wf_records, RecordStore, RecordV};
use crate::role::{role_satisfies, Role};
use crate::session::{
    has_token, idx_of_token, resolve_spec, wf_sessions, Session, SessionRegistry, SessionV,
};
use crate::trusted::bcrypt_accepts;

verus! {

/// Spec-level image of the whole service state.
pub struct AppStateV {
    pub accounts: Seq<crate::account::AccountV>,
    pub sessions: Seq<SessionV>,
    pub records: Seq<RecordV>,
    pub next_record_id: u32,
}

/// What a successful login hands back: the bearer token of the fresh session
/// and the public view of the account.
#[derive(Debug)]
pub struct LoginResponse {
    pub token: String,
    pub account: AccountPublic,
}

/// The session a token resolves to, where one exists.
pub open spec fn session_at(sessions: Seq<SessionV>, token: Seq<char>) -> SessionV {
    sessions[idx_of_token(sessions, token)]
}

/// Whether a login with these credentials must succeed: the username names
/// an account, the account is active, and the password verifies against its
/// stored credential. Every other combination is rejected with the same
/// generic error.
pub open spec fn login_ok(
    accounts: Seq<crate::account::AccountV>,
    username: Seq<char>,
    password: Seq<char>,
) -> bool {
    &&& has_username(accounts, username)
    &&& accounts[idx_of_username(accounts, username)].active
    &&& bcrypt_accepts(password, accounts[idx_of_username(accounts, username)].password_hash)
}

/// What `whoami` answers from a given state.
pub open spec fn whoami_spec(s: AppStateV, token: Seq<char>) -> Result<
    AccountPublicV,
    ServiceError,
> {
    if !has_token(s.sessions, token) {
        Err(ServiceError::Unauthorized)
    } else if !has_account_id(s.accounts, session_at(s.sessions, token).user_id) {
        Err(ServiceError::NotFound)
    } else {
        Ok(
            public_of(
                s.accounts[idx_of_account_id(s.accounts, session_at(s.sessions, token).user_id)],
            ),
        )
    }
}

/// The service facade: it owns the account store, the session registry and
/// the record store, resolves the caller's bearer token, consults the role
/// policy, and only then reads or mutates a store. A caller that wants the
/// records durable writes [`AppState::export_records`] to the durable file
/// after every record mutation; loading it back at startup goes through
/// [`AppState::load_records`].
pub struct AppState {
    accounts: AccountStore,
    sessions: SessionRegistry,
    records: RecordStore,
}

impl View for AppState {
    type V = AppStateV;

    closed spec fn view(&self) -> AppStateV {
        AppStateV {
            accounts: self.accounts@,
            sessions: self.sessions@,
            records: self.records@.records,
            next_record_id: self.records@.next_id,
        }
    }
}

impl AppState {
    /// All three stores are well-formed: usernames unique, tokens unique,
    /// record ids unique and below the counter.
    pub open spec fn wf(&self) -> bool {
        &&& wf_accounts(self@.accounts)
        &&& wf_sessions(self@.sessions)
        &&& wf_records(self@.records, self@.next_record_id)
    }

    /// A fresh state: no accounts, no sessions, no records, the first record
    /// id will be 1. Callers bootstrap the administrator and load the durable
    /// file separately.
    pub fn new() -> (r: Self)
        ensures
            r@.accounts.len() == 0,
            r@.sessions.len() == 0,
            r@.records.len() == 0,
            r@.next_record_id == 1,
            r.wf(),
    {
        AppState {
            accounts: AccountStore::new(),
            sessions: SessionRegistry::new(),
            records: RecordStore::new(),
        }
    }

    /// On a state with no accounts, creates the single well-known bootstrap
    /// administrator; on any other state, does nothing.
    pub fn bootstrap_admin(&mut self)
        requires
            old(self).wf(),
        ensures
            final(self).wf(),
            final(self)@.sessions == old(self)@.sessions,
            final(self)@.records == old(self)@.records,
            final(self)@.next_record_id == old(self)@.next_record_id,
            old(self)@.accounts.len() > 0 ==> final(self)@.accounts == old(self)@.accounts,
            old(self)@.accounts.len() == 0 ==> final(self)@.accounts.len() == 1,
            old(self)@.accounts.len() == 0 ==> final(self)@.accounts[0].username == "admin"@,
            old(self)@.accounts.len() == 0 ==> final(self)@.accounts[0].role == Role::Admin,
            old(self)@.accounts.len() == 0 ==> final(self)@.accounts[0].active,
            old(self)@.accounts.len() == 0 ==> bcrypt_accepts(
                "admin123"@,
                final(self)@.accounts[0].password_hash,
            ),
    {
        self.accounts.bootstrap_admin();
    }

    /// Resolves a bearer token to its live session, if any.
    pub fn verify_token(&self, token: &str) -> (r: Option<Session>)
        ensures
            r is Some <==> has_token(self@.sessions, token@),
            r matches Some(s) ==> resolve_spec(self@.sessions, token@) == Some(s@),
            r is None ==> resolve_spec(self@.sessions, token@) is None,
    {
        self.sessions.resolve(token)
    }

    /// Whether this session's role satisfies the given required role, by the
    /// fixed table ([`role_satisfies`]). Pure; no store is read.
    pub fn check_permission(&self, session: &Session, required_role: Role) -> (r: bool)
        ensures
            r == role_satisfies(session.role, required_role),
    {
        session.role.satisfies(required_role)
    }

    /// Resolves the token and checks the required role; every authenticated
    /// operation starts here. A missing session is `Unauthorized`, an
    /// insufficient role `Forbidden`.
    fn authorize(&self, token: &str, required: Role) -> (r: Result<Session, ServiceError>)
        ensures
            !has_token(self@.sessions, token@) ==> r == Err::<Session, ServiceError>(
                ServiceError::Unauthorized,
            ),
            has_token(self@.sessions, token@) && !role_satisfies(
                session_at(self@.sessions, token@).role,
                required,
            ) ==> r == Err::<Session, ServiceError>(ServiceError::Forbidden),
            has_token(self@.sessions, token@) && role_satisfies(
                session_at(self@.sessions, token@).role,
                required,
            ) ==> r is Ok,
            r matches Ok(s) ==> s@ == session_at(self@.sessions, token@) && has_token(
                self@.sessions,
                token@,
            ) && role_satisfies(s@.role, required),
    {
        let session = match self.sessions.resolve(token) {
            Some(s) => s,
            None => {
                return Err(ServiceError::Unauthorized);
            },
        };
        if !session.role.satisfies(required) {
            return Err(ServiceError::Forbidden);
        }
        Ok(session)
    }

    /// Checks the credentials and, exactly when [`login_ok`] holds of them,
    /// opens a session and returns its token with the account's public view.
    /// An unknown username, a wrong password and an inactive account are
    /// indistinguishable in the result.
    pub fn login(&mut self, username: &str, password: &str) -> (r: Result<
        LoginResponse,
        ServiceError,
    >)
        requires
            old(self).wf(),
        ensures
            final(self).wf(),
            final(self)@.accounts == old(self)@.accounts,
            final(self)@.records == old(self)@.records,
            final(self)@.next_record_id == old(self)@.next_record_id,
            r is Ok <==> login_ok(old(self)@.accounts, username@, password@),
            r is Err ==> r == Err::<LoginResponse, ServiceError>(ServiceError::Unauthorized)
                && final(self)@.sessions == old(self)@.sessions,
            r matches Ok(o) ==> o.account@ == public_of(
                old(self)@.accounts[idx_of_username(old(self)@.accounts, username@)],
            ),
            r matches Ok(o) ==> has_token(final(self)@.sessions, o.token@) && session_at(
                final(self)@.sessions,
                o.token@,
            ).user_id == old(self)@.accounts[idx_of_username(old(self)@.accounts, username@)].id
                && session_at(final(self)@.sessions, o.token@).username == old(self)@.accounts[idx_of_username(old(self)@.accounts, username@)].username && session_at(
                final(self)@.sessions,
                o.token@,
            ).role == old(self)@.accounts[idx_of_username(old(self)@.accounts, username@)].role,
            r matches Ok(o) ==> !has_token(old(self)@.sessions, o.token@) ==> final(self)@.sessions
                == old(self)@.sessions.push(session_at(final(self)@.sessions, o.token@)),
            r matches Ok(o) ==> has_token(old(self)@.sessions, o.token@) ==> final(self)@.sessions
                == old(self)@.sessions.remove(
                idx_of_token(old(self)@.sessions, o.token@),
            ).push(session_at(final(self)@.sessions, o.token@)),
    {
        let account = match self.accounts.find_by_username(username) {
            Some(a) => a,
            None => {
                return Err(ServiceError::Unauthorized);
            },
        };
        if !account.active {
            return Err(ServiceError::Unauthorized);
        }
        if !crate::trusted::check_password(password, account.password_hash.as_str()) {
            return Err(ServiceError::Unauthorized);
        }
        let session = self.sessions.create(&account);
        let token = session.token.clone();
        proof {
            assert(resolve_spec(self@.sessions, token@) == Some(session@));
        }
        Ok(LoginResponse { token, account: account.to_public() })
    }

    /// Destroys the session of this token, if any; always succeeds, and the
    /// token no longer resolves afterwards.
    pub fn logout(&mut self, token: &str)
        requires
            old(self).wf(),
        ensures
            final(self).wf(),
            final(self)@.accounts == old(self)@.accounts,
            final(self)@.records == old(self)@.records,
            final(self)@.next_record_id == old(self)@.next_record_id,
            !has_token(old(self)@.sessions, token@) ==> final(self)@.sessions == old(self)@.sessions,
            has_token(old(self)@.sessions, token@) ==> final(self)@.sessions == old(self)@.sessions.remove(idx_of_token(old(self)@.sessions, token@)),
            resolve_spec(final(self)@.sessions, token@) is None,
    {
        self.sessions.destroy(token);
    }

    /// The public view of the calling session's account, re-read from the
    /// account store by id: `Unauthorized` without a live session, `NotFound`
    /// when the account has meanwhile been deleted.
    pub fn whoami(&self, token: &str) -> (r: Result<AccountPublic, ServiceError>)
        ensures
            r matches Ok(p) ==> whoami_spec(self@, token@) == Ok::<AccountPublicV, ServiceError>(
                p@,
            ),
            r matches Err(e) ==> whoami_spec(self@, token@) == Err::<AccountPublicV, ServiceError>(
                e,
            ),
    {
        let session = match self.authorize(token, Role::User) {
            Ok(s) => s,
            Err(_) => {
                return Err(ServiceError::Unauthorized);
            },
        };
        match self.accounts.find_by_id(session.user_id.as_str()) {
            Some(account) => Ok(account.to_public()),
            None => Err(ServiceError::NotFound),
        }
    }

    /// The public views of all accounts, for a session whose role satisfies
    /// `Manager`.
    pub fn list_accounts(&self, token: &str) -> (r: Result<Vec<AccountPublic>, ServiceError>)
        ensures
            !has_token(self@.sessions, token@) ==> r == Err::<Vec<AccountPublic>, ServiceError>(
                ServiceError::Unauthorized,
            ),
            has_token(self@.sessions, token@) && !role_satisfies(
                session_at(self@.sessions, token@).role,
                Role::Manager,
            ) ==> r == Err::<Vec<AccountPublic>, ServiceError>(ServiceError::Forbidden),
            has_token(self@.sessions, token@) && role_satisfies(
                session_at(self@.sessions, token@).role,
                Role::Manager,
            ) ==> r is Ok,
            r matches Ok(v) ==> v@.len() == self@.accounts.len() && forall|i: int|
                0 <= i < v@.len() ==> v@[i]@ == public_of(self@.accounts[i]),
    {
        match self.authorize(token, Role::Manager) {
            Ok(_) => Ok(self.accounts.list()),
            Err(e) => Err(e),
        }
    }

    /// Creates an account, for an `Admin` session. A taken username is a
    /// `Conflict` and changes nothing (as is the vanishing case of a fresh
    /// random id already in use); on success the new account is appended,
    /// active, with the hash of `password` as its credential, its id and
    /// username taken by no other account.
    pub fn create_account(&mut self, token: &str, username: &str, password: &str, role: Role) -> (r:
        Result<AccountPublic, ServiceError>)
        requires
            old(self).wf(),
        ensures
            final(self).wf(),
            final(self)@.sessions == old(self)@.sessions,
            final(self)@.records == old(self)@.records,
            final(self)@.next_record_id == old(self)@.next_record_id,
            !has_token(old(self)@.sessions, token@) ==> r == Err::<AccountPublic, ServiceError>(
                ServiceError::Unauthorized,
            ) && final(self)@.accounts == old(self)@.accounts,
            has_token(old(self)@.sessions, token@) && !role_satisfies(
                session_at(old(self)@.sessions, token@).role,
                Role::Admin,
            ) ==> r == Err::<AccountPublic, ServiceError>(ServiceError::Forbidden) && final(self)@.accounts == old(self)@.accounts,
            has_token(old(self)@.sessions, token@) && role_satisfies(
                session_at(old(self)@.sessions, token@).role,
                Role::Admin,
            ) && has_username(old(self)@.accounts, username@) ==> r == Err::<
                AccountPublic,
                ServiceError,
            >(ServiceError::Conflict) && final(self)@.accounts == old(self)@.accounts,
            has_token(old(self)@.sessions, token@) && role_satisfies(
                session_at(old(self)@.sessions, token@).role,
                Role::Admin,
            ) && r is Err ==> r == Err::<AccountPublic, ServiceError>(ServiceError::Conflict)
                && final(self)@.accounts == old(self)@.accounts,
            r matches Ok(p) ==> final(self)@.accounts.len() == old(self)@.accounts.len() + 1
                && final(self)@.accounts.drop_last() == old(self)@.accounts
                && !has_username(old(self)@.accounts, username@) && !has_account_id(
                old(self)@.accounts,
                final(self)@.accounts.last().id,
            ) && final(self)@.accounts.last().username == username@ && final(self)@.accounts.last().role == role && final(self)@.accounts.last().active
                && bcrypt_accepts(password@, final(self)@.accounts.last().password_hash) && p@
                == public_of(final(self)@.accounts.last()),
    {
        if let Err(e) = self.authorize(token, Role::Admin) {
            return Err(e);
        }
        match self.accounts.create(username, password, role) {
            Ok(account) => {
                proof {
                    assert(self@.accounts.drop_last() =~= old(self)@.accounts);
                }
                Ok(account.to_public())
            },
            Err(e) => Err(e),
        }
    }

    /// Applies the provided fields (`active`, `role`; either may be omitted)
    /// to the account with this id, for an `Admin` session.
    pub fn update_account(
        &mut self,
        token: &str,
        id: &str,
        active: Option<bool>,
        role: Option<Role>,
    ) -> (r: Result<AccountPublic, ServiceError>)
        requires
            old(self).wf(),
        ensures
            final(self).wf(),
            final(self)@.sessions == old(self)@.sessions,
            final(self)@.records == old(self)@.records,
            final(self)@.next_record_id == old(self)@.next_record_id,
            !has_token(old(self)@.sessions, token@) ==> r == Err::<AccountPublic, ServiceError>(
                ServiceError::Unauthorized,
            ) && final(self)@.accounts == old(self)@.accounts,
            has_token(old(self)@.sessions, token@) && !role_satisfies(
                session_at(old(self)@.sessions, token@).role,
                Role::Admin,
            ) ==> r == Err::<AccountPublic, ServiceError>(ServiceError::Forbidden) && final(self)@.accounts == old(self)@.accounts,
            has_token(old(self)@.sessions, token@) && role_satisfies(
                session_at(old(self)@.sessions, token@).role,
                Role::Admin,
            ) && !has_account_id(old(self)@.accounts, id@) ==> r == Err::<
                AccountPublic,
                ServiceError,
            >(ServiceError::NotFound) && final(self)@.accounts == old(self)@.accounts,
            has_token(old(self)@.sessions, token@) && role_satisfies(
                session_at(old(self)@.sessions, token@).role,
                Role::Admin,
            ) && has_account_id(old(self)@.accounts, id@) ==> r is Ok,
            r matches Ok(p) ==> final(self)@.accounts == old(self)@.accounts.update(
                idx_of_account_id(old(self)@.accounts, id@),
                crate::account::apply_update(
                    old(self)@.accounts[idx_of_account_id(old(self)@.accounts, id@)],
                    active,
                    role,
                ),
            ) && p@ == public_of(
                crate::account::apply_update(
                    old(self)@.accounts[idx_of_account_id(old(self)@.accounts, id@)],
                    active,
                    role,
                ),
            ),
    {
        if let Err(e) = self.authorize(token, Role::Admin) {
            return Err(e);
        }
        match self.accounts.update(id, active, role) {
            Ok(account) => Ok(account.to_public()),
            Err(e) => Err(e),
        }
    }

    /// Removes the account with this id, for an `Admin` session, except the
    /// session's own account: whatever the role, self-deletion is refused
    /// before anything is looked up or removed.
    pub fn delete_account(&mut self, token: &str, id: &str) -> (r: Result<(), ServiceError>)
        requires
            old(self).wf(),
        ensures
            final(self).wf(),
            final(self)@.sessions == old(self)@.sessions,
            final(self)@.records == old(self)@.records,
            final(self)@.next_record_id == old(self)@.next_record_id,
            !has_token(old(self)@.sessions, token@) ==> r == Err::<(), ServiceError>(
                ServiceError::Unauthorized,
            ) && final(self)@.accounts == old(self)@.accounts,
            has_token(old(self)@.sessions, token@) && !role_satisfies(
                session_at(old(self)@.sessions, token@).role,
                Role::Admin,
            ) ==> r == Err::<(), ServiceError>(ServiceError::Forbidden) && final(self)@.accounts
                == old(self)@.accounts,
            has_token(old(self)@.sessions, token@) && role_satisfies(
                session_at(old(self)@.sessions, token@).role,
                Role::Admin,
            ) && id@ == session_at(old(self)@.sessions, token@).user_id ==> r == Err::<
                (),
                ServiceError,
            >(ServiceError::SelfDeleteForbidden) && final(self)@.accounts == old(self)@.accounts,
            has_token(old(self)@.sessions, token@) && role_satisfies(
                session_at(old(self)@.sessions, token@).role,
                Role::Admin,
            ) && id@ != session_at(old(self)@.sessions, token@).user_id && !has_account_id(
                old(self)@.accounts,
                id@,
            ) ==> r == Err::<(), ServiceError>(ServiceError::NotFound) && final(self)@.accounts
                == old(self)@.accounts,
            has_token(old(self)@.sessions, token@) && role_satisfies(
                session_at(old(self)@.sessions, token@).role,
                Role::Admin,
            ) && id@ != session_at(old(self)@.sessions, token@).user_id && has_account_id(
                old(self)@.accounts,
                id@,
            ) ==> r is Ok && final(self)@.accounts == old(self)@.accounts.remove(
                idx_of_account_id(old(self)@.accounts, id@),
            ),
    {
        let session = match self.authorize(token, Role::Admin) {
            Ok(s) => s,
            Err(e) => {
                return Err(e);
            },
        };
        self.accounts.delete(id, session.user_id.as_str())
    }

    /// A snapshot of all records, for any authenticated session.
    pub fn list_records(&self, token: &str) -> (r: Result<Vec<crate::record::Record>, ServiceError>)
        ensures
            !has_token(self@.sessions, token@) ==> r == Err::<
                Vec<crate::record::Record>,
                ServiceError,
            >(ServiceError::Unauthorized),
            has_token(self@.sessions, token@) ==> r is Ok,
            r matches Ok(v) ==> v@.len() == self@.records.len() && forall|i: int|
                0 <= i < v@.len() ==> v@[i]@ == self@.records[i],
    {
        match self.authorize(token, Role::User) {
            Ok(_) => Ok(self.records.list()),
            Err(_) => Err(ServiceError::Unauthorized),
        }
    }

    /// Creates a record for any authenticated session: it gets the next id,
    /// the given fields, and the session's username as its attribution. The
    /// caller persists [`AppState::export_records`] afterwards.
    pub fn create_record(&mut self, token: &str, fields: &crate::record::RecordFields) -> (r:
        Result<crate::record::Record, ServiceError>)
        requires
            old(self).wf(),
            old(self)@.next_record_id < u32::MAX,
        ensures
            final(self).wf(),
            final(self)@.accounts == old(self)@.accounts,
            final(self)@.sessions == old(self)@.sessions,
            !has_token(old(self)@.sessions, token@) ==> r == Err::<
                crate::record::Record,
                ServiceError,
            >(ServiceError::Unauthorized) && final(self)@.records == old(self)@.records && final(self)@.next_record_id == old(self)@.next_record_id,
            has_token(old(self)@.sessions, token@) ==> r is Ok,
            r matches Ok(rec) ==> rec@.id == old(self)@.next_record_id
                && crate::record::record_has_fields(rec@, fields@) && rec@.created_by == session_at(
                old(self)@.sessions,
                token@,
            ).username && final(self)@.records == old(self)@.records.push(rec@) && final(self)@.next_record_id == old(self)@.next_record_id + 1,
    {
        let session = match self.authorize(token, Role::User) {
            Ok(s) => s,
            Err(_) => {
                return Err(ServiceError::Unauthorized);
            },
        };
        Ok(self.records.create(fields, session.username.as_str()))
    }

    /// Replaces the caller-suppliable fields of the record with this id, for
    /// any authenticated session; the id and the attribution stay. The caller
    /// persists [`AppState::export_records`] afterwards.
    pub fn update_record(&mut self, token: &str, id: u32, fields: &crate::record::RecordFields) -> (
        r: Result<crate::record::Record, ServiceError>)
        requires
            old(self).wf(),
        ensures
            final(self).wf(),
            final(self)@.accounts == old(self)@.accounts,
            final(self)@.sessions == old(self)@.sessions,
            final(self)@.next_record_id == old(self)@.next_record_id,
            !has_token(old(self)@.sessions, token@) ==> r == Err::<
                crate::record::Record,
                ServiceError,
            >(ServiceError::Unauthorized) && final(self)@.records == old(self)@.records,
            has_token(old(self)@.sessions, token@) && !crate::record::has_record_id(
                old(self)@.records,
                id,
            ) ==> r == Err::<crate::record::Record, ServiceError>(ServiceError::NotFound) && final(self)@.records == old(self)@.records,
            has_token(old(self)@.sessions, token@) && crate::record::has_record_id(
                old(self)@.records,
                id,
            ) ==> r is Ok,
            r matches Ok(rec) ==> rec@.id == id && crate::record::record_has_fields(rec@, fields@)
                && rec@.created_by == old(self)@.records[crate::record::idx_of_record_id(
                old(self)@.records,
                id,
            )].created_by && final(self)@.records == old(self)@.records.update(
                crate::record::idx_of_record_id(old(self)@.records, id),
                rec@,
            ),
    {
        if let Err(_) = self.authorize(token, Role::User) {
            return Err(ServiceError::Unauthorized);
        }
        self.records.update(id, fields)
    }

    /// Removes the record with this id, for a session whose role satisfies
    /// `Manager`. The id is never assigned again. The caller persists
    /// [`AppState::export_records`] afterwards.
    pub fn delete_record(&mut self, token: &str, id: u32) -> (r: Result<(), ServiceError>)
        requires
            old(self).wf(),
        ensures
            final(self).wf(),
            final(self)@.accounts == old(self)@.accounts,
            final(self)@.sessions == old(self)@.sessions,
            final(self)@.next_record_id == old(self)@.next_record_id,
            !has_token(old(self)@.sessions, token@) ==> r == Err::<(), ServiceError>(
                ServiceError::Unauthorized,
            ) && final(self)@.records == old(self)@.records,
            has_token(old(self)@.sessions, token@) && !role_satisfies(
                session_at(old(self)@.sessions, token@).role,
                Role::Manager,
            ) ==> r == Err::<(), ServiceError>(ServiceError::Forbidden) && final(self)@.records
                == old(self)@.records,
            has_token(old(self)@.sessions, token@) && role_satisfies(
                session_at(old(self)@.sessions, token@).role,
                Role::Manager,
            ) && !crate::record::has_record_id(old(self)@.records, id) ==> r == Err::<
                (),
                ServiceError,
            >(ServiceError::NotFound) && final(self)@.records == old(self)@.records,
            has_token(old(self)@.sessions, token@) && role_satisfies(
                session_at(old(self)@.sessions, token@).role,
                Role::Manager,
            ) && crate::record::has_record_id(old(self)@.records, id) ==> r is Ok && final(self)@.records == old(self)@.records.remove(
                crate::record::idx_of_record_id(old(self)@.records, id),
            ),
    {
        if let Err(e) = self.authorize(token, Role::Manager) {
            return Err(e);
        }
        self.records.delete(id)
    }

    /// The id the next created record will get. The counter never moves
    /// backwards, so a caller can watch it approach the id type's limit.
    pub fn next_record_id(&self) -> (r: u32)
        ensures
            r == self@.next_record_id,
    {
        self.records.peek_next_id()
    }

    /// The durable-file contents for the current records. A caller writes
    /// this after every record mutation; a failed write leaves the in-memory
    /// state as it is (the states diverge until the next successful write).
    pub fn export_records(&self) -> (r: String)
        ensures
            r@ == encode_file_spec(self@.records),
    {
        let records = self.records.list();
        proof {
            assert(records@.map_values(|x: crate::record::Record| x@) =~= self@.records);
        }
        encode_records(&records)
    }

    /// Replaces the records with what the durable file holds: the rows
    /// [`kept_rows`] describes are recovered in file order and the id counter
    /// is set one past the largest recovered id, so recovered ids are never
    /// reassigned. Accounts and sessions are untouched.
    pub fn load_records(&mut self, contents: &str)
        requires
            old(self).wf(),
        ensures
            final(self).wf(),
            final(self)@.accounts == old(self)@.accounts,
            final(self)@.sessions == old(self)@.sessions,
            final(self)@.records == kept_rows(parse_file_spec(contents@)),
            final(self)@.next_record_id as int == max_id(kept_rows(parse_file_spec(contents@)))
                + 1,
    {
        let rows = parse_records(contents);
        proof {
            assert(rows@.map_values(|x: crate::codec::RowParse| x@) =~= parse_file_spec(
                contents@,
            ));
        }
        self.records = load_store(&rows);
    }
}

} // verus!
