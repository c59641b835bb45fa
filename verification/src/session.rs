use vstd::prelude::*;

use crate::account::Account;
use crate::role::Role;
use crate::trusted::{fresh_uuid, now_rfc3339};

verus! {

/// Spec-level image of a session.
pub struct SessionV {
    pub token: Seq<char>,
    pub user_id: Seq<char>,
    pub username: Seq<char>,
    pub role: Role,
    pub created_at: Seq<char>,
}

/// A live authenticated binding between a bearer token and an account
/// snapshot. The snapshot (`user_id`, `username`, `role`) is taken at login
/// time and is not re-read from the account store on later calls; a role
/// change therefore takes effect for a user only at their next login.
#[derive(Debug)]
pub struct Session {
    pub token: String,
    pub user_id: String,
    pub username: String,
    pub role: Role,
    pub created_at: String,
}

impl View for Session {
    type V = SessionV;

    open spec fn view(&self) -> SessionV {
        SessionV {
            token: self.token@,
            user_id: self.user_id@,
            username: self.username@,
            role: self.role,
            created_at: self.created_at@,
        }
    }
}

impl Clone for Session {
    fn clone(&self) -> (r: Self)
        ensures
            r == *self,
    {
        Session {
            token: self.token.clone(),
            user_id: self.user_id.clone(),
            username: self.username.clone(),
            role: self.role,
            created_at: self.created_at.clone(),
        }
    }
}

/// Whether some session in `s` carries this token.
pub open spec fn has_token(s: Seq<SessionV>, token: Seq<char>) -> bool {
    exists|i: int| 0 <= i < s.len() && s[i].token == token
}

/// The index of the first session with this token; `s.len()` if none.
pub open spec fn idx_of_token(s: Seq<SessionV>, token: Seq<char>) -> int
    decreases s.len(),
{
    if s.len() == 0 {
        0
    } else if s[0].token == token {
        0
    } else {
        1 + idx_of_token(s.drop_first(), token)
    }
}

/// What a token lookup yields: the first session carrying the token, or
/// nothing when the token is not registered (or was destroyed).
pub open spec fn resolve_spec(s: Seq<SessionV>, token: Seq<char>) -> Option<SessionV> {
    if has_token(s, token) {
        Some(s[idx_of_token(s, token)])
    } else {
        None
    }
}

/// `idx_of_token` points at the first session with the token when one
/// exists, and at the end of the sequence when none does.
pub proof fn lemma_idx_of_token(s: Seq<SessionV>, token: Seq<char>)
    ensures
        !has_token(s, token) ==> idx_of_token(s, token) == s.len(),
        has_token(s, token) ==> 0 <= idx_of_token(s, token) < s.len(),
        has_token(s, token) ==> s[idx_of_token(s, token)].token == token,
        forall|j: int| 0 <= j < idx_of_token(s, token) && j < s.len() ==> s[j].token != token,
    decreases s.len(),
{
    if s.len() == 0 {
    } else if s[0].token == token {
    } else {
        let rest = s.drop_first();
        lemma_idx_of_token(rest, token);
        assert(forall|i: int| 0 <= i < rest.len() ==> rest[i] == s[i + 1]);
        if has_token(s, token) {
            let i = choose|i: int| 0 <= i < s.len() && s[i].token == token;
            assert(rest[i - 1] == s[i]);
            assert(has_token(rest, token));
        }
        if has_token(rest, token) {
            let i = choose|i: int| 0 <= i < rest.len() && rest[i].token == token;
            assert(s[i + 1].token == token);
            assert(has_token(s, token));
        }
        assert forall|j: int|
            0 <= j < idx_of_token(s, token) && j < s.len() implies s[j].token != token by {
            if j >= 1 {
                assert(s[j] == rest[j - 1]);
            }
        }
    }
}

/// Tokens are pairwise distinct.
pub open spec fn wf_sessions(s: Seq<SessionV>) -> bool {
    forall|i: int, j: int| 0 <= i < j < s.len() ==> s[i].token != s[j].token
}

/// The registry of active sessions. Each token maps to at most one session
/// ([`SessionRegistry::wf`]); every operation preserves that.
pub struct SessionRegistry {
    sessions: Vec<Session>,
}

impl View for SessionRegistry {
    type V = Seq<SessionV>;

    closed spec fn view(&self) -> Seq<SessionV> {
        self.sessions@.map_values(|s: Session| s@)
    }
}

impl SessionRegistry {
    /// See [`wf_sessions`].
    pub open spec fn wf(&self) -> bool {
        wf_sessions(self@)
    }

    /// An empty registry.
    pub fn new() -> (r: Self)
        ensures
            r@.len() == 0,
            r.wf(),
    {
        SessionRegistry { sessions: Vec::new() }
    }

    /// The index of the first session with this token, if any.
    fn position_of_token(&self, token: &String) -> (r: Option<usize>)
        ensures
            r is Some <==> has_token(self@, token@),
            r matches Some(i) ==> 0 <= i < self@.len() && i as int == idx_of_token(self@, token@)
                && self@[i as int].token == token@,
    {
        let mut i: usize = 0;
        while i < self.sessions.len()
            invariant
                0 <= i <= self.sessions.len(),
                self@.len() == self.sessions@.len(),
                forall|j: int| 0 <= j < i ==> self@[j].token != token@,
            decreases self.sessions.len() - i,
        {
            proof {
                assert(self@[i as int] == self.sessions@[i as int]@);
            }
            if self.sessions[i].token == *token {
                proof {
                    assert(self@[i as int].token == token@);
                    assert(has_token(self@, token@));
                    lemma_idx_of_token(self@, token@);
                    let idx = idx_of_token(self@, token@);
                    assert(!(idx < i) && !(i < idx));
                }
                return Some(i);
            }
            i += 1;
        }
        proof {
            if has_token(self@, token@) {
                let w = choose|w: int| 0 <= w < self@.len() && self@[w].token == token@;
                assert(self@[w].token != token@);
            }
        }
        None
    }

    /// Exact-match lookup of a bearer token. A token is found after the
    /// session's creation and no longer found after its destruction.
    pub fn resolve(&self, token: &str) -> (r: Option<Session>)
        ensures
            r is Some <==> has_token(self@, token@),
            r matches Some(s) ==> resolve_spec(self@, token@) == Some(s@),
            r is None ==> resolve_spec(self@, token@) is None,
    {
        let t = token.to_owned();
        match self.position_of_token(&t) {
            Some(i) => Some(self.sessions[i].clone()),
            None => None,
        }
    }

    /// Creates a session for an authenticated account: a fresh random bearer
    /// token bound to a snapshot of the account's identity. The new token
    /// resolves to exactly the returned session; were the random token ever
    /// to collide with a registered one, the old session gives way, keeping
    /// each token bound to at most one session.
    pub fn create(&mut self, account: &Account) -> (r: Session)
        requires
            old(self).wf(),
        ensures
            final(self).wf(),
            r@.user_id == account@.id,
            r@.username == account@.username,
            r@.role == account@.role,
            !has_token(old(self)@, r@.token) ==> final(self)@ == old(self)@.push(r@),
            has_token(old(self)@, r@.token) ==> final(self)@ == old(self)@.remove(
                idx_of_token(old(self)@, r@.token),
            ).push(r@),
            resolve_spec(final(self)@, r@.token) == Some(r@),
    {
        let token = fresh_uuid();
        let session = Session {
            token: token.clone(),
            user_id: account.id.clone(),
            username: account.username.clone(),
            role: account.role,
            created_at: now_rfc3339(),
        };
        let result = session.clone();
        match self.position_of_token(&token) {
            Some(i) => {
                let _ = self.sessions.remove(i);
                proof {
                    let ghost mid = old(self)@.remove(i as int);
                    assert(self@ =~= mid);
                    assert forall|k: int| 0 <= k < mid.len() implies mid[k].token != token@ by {
                        let ok = if k < i as int {
                            k
                        } else {
                            k + 1
                        };
                        assert(mid[k] == old(self)@[ok]);
                        if old(self)@[ok].token == token@ {
                            lemma_idx_of_token(old(self)@, token@);
                        }
                    }
                }
            },
            None => {},
        }
        let ghost mid = self@;
        let ghost rv = result@;
        self.sessions.push(session);
        proof {
            assert(self@ =~= mid.push(rv));
            assert(forall|k: int| 0 <= k < mid.len() ==> mid[k].token != token@);
            assert forall|x: int, y: int|
                0 <= x < y < self@.len() implies self@[x].token != self@[y].token by {
                if y == self@.len() - 1 {
                    assert(self@[x] == mid[x]);
                } else {
                    assert(self@[x] == mid[x] && self@[y] == mid[y]);
                }
            }
            assert(self@[mid.len() as int] == rv);
            assert(has_token(self@, rv.token));
            lemma_idx_of_token(self@, rv.token);
            let idx = idx_of_token(self@, rv.token);
            assert forall|j: int| 0 <= j < self@.len() - 1 implies self@[j].token != rv.token by {
                assert(self@[j] == mid[j]);
            }
            assert(idx == self@.len() - 1);
        }
        result
    }

    /// Destroys the session bound to this token. Idempotent: destroying an
    /// unknown (or already destroyed) token changes nothing and is no error.
    /// Either way the token no longer resolves afterwards.
    pub fn destroy(&mut self, token: &str)
        requires
            old(self).wf(),
        ensures
            final(self).wf(),
            !has_token(old(self)@, token@) ==> final(self)@ == old(self)@,
            has_token(old(self)@, token@) ==> final(self)@ == old(self)@.remove(
                idx_of_token(old(self)@, token@),
            ),
            resolve_spec(final(self)@, token@) is None,
    {
        let t = token.to_owned();
        match self.position_of_token(&t) {
            Some(i) => {
                let _ = self.sessions.remove(i);
                proof {
                    assert(self@ =~= old(self)@.remove(i as int));
                    assert forall|k: int| 0 <= k < self@.len() implies self@[k].token
                        != token@ by {
                        let ok = if k < i as int {
                            k
                        } else {
                            k + 1
                        };
                        assert(self@[k] == old(self)@[ok]);
                        if old(self)@[ok].token == token@ {
                            lemma_idx_of_token(old(self)@, token@);
                        }
                    }
                    assert forall|x: int, y: int|
                        0 <= x < y < self@.len() implies self@[x].token != self@[y].token by {
                        let ox = if x < i as int {
                            x
                        } else {
                            x + 1
                        };
                        let oy = if y < i as int {
                            y
                        } else {
                            y + 1
                        };
                        assert(self@[x].token == old(self)@[ox].token);
                        assert(self@[y].token == old(self)@[oy].token);
                    }
                    if has_token(self@, token@) {
                        let w = choose|w: int|
                            0 <= w < self@.len() && self@[w].token == token@;
                        assert(self@[w].token != token@);
                    }
                }
            },
            None => {},
        }
    }

    /// The number of live sessions.
    pub fn len(&self) -> (r: usize)
        ensures
            r == self@.len(),
    {
        self.sessions.len()
    }
}

} // verus!
