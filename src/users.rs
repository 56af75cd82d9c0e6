//! Users, their single-use tokens and the e-mail/nonce pairs the tokens carry.
use vstd::prelude::*;
use crate::entities::User;
use crate::error::RepoError;
use crate::outside::{lower_of, to_lowercase};
use crate::text::str_eq;

verus! {

/// Whether `c` is a lowercase hexadecimal digit.
pub open spec fn is_lower_hex(c: char) -> bool {
    ('0' <= c && c <= '9') || ('a' <= c && c <= 'f')
}

/// Nonces are 32 lowercase hexadecimal digits.
pub open spec fn is_nonce(s: Seq<char>) -> bool {
    s.len() == 32 && forall|i: int| 0 <= i < 32 ==> is_lower_hex(#[trigger] s[i])
}

/// A nonce bound to an e-mail address; the pair forms a single-use token.
#[derive(Clone, Debug, PartialEq, Eq)]
pub struct EmailNonce {
    pub email: String,
    pub nonce: String,
}

/// The encoding of a nonce and an e-mail address: the nonce followed by the
/// address.
pub open spec fn encode_spec(nonce: Seq<char>, email: Seq<char>) -> Seq<char> {
    nonce + email
}

/// The nonce and the address that `s` encodes, if it is an encoding.
pub open spec fn decode_spec(s: Seq<char>) -> Option<(Seq<char>, Seq<char>)> {
    if s.len() >= 32 && is_nonce(s.subrange(0, 32)) {
        Some((s.subrange(0, 32), s.subrange(32, s.len() as int)))
    } else {
        None
    }
}

impl EmailNonce {
    /// Encodes the pair as a token string.
    pub fn encode_to_string(&self) -> (r: String)
        ensures
            r@ == encode_spec(self.nonce@, self.email@),
    {
        let mut r = self.nonce.clone();
        r.append(self.email.as_str());
        r
    }

    /// Decodes a token string; `None` when it does not start with a nonce.
    pub fn decode_from_str(s: &str) -> (r: Option<EmailNonce>)
        ensures
            r is Some <==> decode_spec(s@) is Some,
            r matches Some(x) ==> decode_spec(s@) == Some((x.nonce@, x.email@)),
    {
        let n = s.unicode_len();
        if n < 32 {
            return None;
        }
        let mut i: usize = 0;
        while i < 32
            invariant
                n == s@.len(),
                n >= 32,
                i <= 32,
                forall|k: int| 0 <= k < i ==> is_lower_hex(#[trigger] s@[k]),
            decreases 32 - i,
        {
            let c = s.get_char(i);
            if !(('0' <= c && c <= '9') || ('a' <= c && c <= 'f')) {
                assert(!is_lower_hex(s@.subrange(0, 32)[i as int]));
                return None;
            }
            i += 1;
        }
        assert(is_nonce(s@.subrange(0, 32)));
        let nonce = s.substring_char(0, 32).to_owned();
        let email = s.substring_char(32, n).to_owned();
        Some(EmailNonce { email, nonce })
    }
}

/// A fresh random nonce.
pub fn new_nonce() -> (r: String)
    ensures
        is_nonce(r@),
{
    crate::outside::new_id()
}

/// Decoding the encoding of a nonce and an address gives them back.
pub proof fn lemma_email_nonce_round_trip(nonce: Seq<char>, email: Seq<char>)
    requires
        is_nonce(nonce),
    ensures
        decode_spec(encode_spec(nonce, email)) == Some((nonce, email)),
{
    let s = encode_spec(nonce, email);
    assert(s.subrange(0, 32) =~= nonce);
    assert(s.subrange(32, s.len() as int) =~= email);
}

/// A user's token: the e-mail/nonce pair and when it expires.
#[derive(Clone, Debug, PartialEq, Eq)]
pub struct UserToken {
    pub email_nonce: EmailNonce,
    pub expires_at: i64,
}

/// The position of the user whose address equals `email` regardless of
/// case, or -1.
pub open spec fn user_index(users: Seq<User>, email: Seq<char>) -> int {
    if exists|i: int| 0 <= i < users.len() && lower_of((#[trigger] users[i]).email@) == lower_of(email) {
        choose|i: int| 0 <= i < users.len() && lower_of((#[trigger] users[i]).email@) == lower_of(email)
    } else {
        -1
    }
}

pub proof fn lemma_user_index(users: Seq<User>, email: Seq<char>, i: int)
    requires
        users_wf(users),
        0 <= i < users.len(),
        lower_of(users[i].email@) == lower_of(email),
    ensures
        user_index(users, email) == i,
{
}

pub proof fn lemma_token_index(tokens: Seq<UserToken>, email: Seq<char>, i: int)
    requires
        tokens_wf(tokens),
        0 <= i < tokens.len(),
        tokens[i].email_nonce.email@ == email,
    ensures
        token_index(tokens, email) == i,
{
}

pub open spec fn users_wf(users: Seq<User>) -> bool {
    forall|i: int, j: int|
        0 <= i < users.len() && 0 <= j < users.len() && i != j ==> lower_of((#[trigger] users[i]).email@)
            != lower_of((#[trigger] users[j]).email@)
}

/// The store of users; e-mail addresses are unique regardless of case.
#[derive(Debug)]
pub struct UserRepo {
    pub users: Vec<User>,
}

impl UserRepo {
    pub open spec fn wf(&self) -> bool {
        users_wf(self.users@)
    }

    pub fn new() -> (r: UserRepo)
        ensures
            r.wf(),
            r.users@.len() == 0,
    {
        UserRepo { users: Vec::new() }
    }

    pub fn find(&self, email: &str) -> (r: Option<usize>)
        requires
            self.wf(),
        ensures
            r matches Some(i) ==> i == user_index(self.users@, email@),
            r is None ==> user_index(self.users@, email@) == -1,
    {
        let key = to_lowercase(email);
        let mut i: usize = 0;
        while i < self.users.len()
            invariant
                self.wf(),
                i <= self.users@.len(),
                key@ == lower_of(email@),
                forall|k: int| 0 <= k < i ==> lower_of((#[trigger] self.users@[k]).email@) != lower_of(email@),
            decreases self.users@.len() - i,
        {
            let k = to_lowercase(self.users[i].email.as_str());
            if str_eq(k.as_str(), key.as_str()) {
                proof {
                    lemma_user_index(self.users@, email@, i as int);
                }
                return Some(i);
            }
            i += 1;
        }
        None
    }

    /// Adds a user; refused when the address is taken.
    pub fn create_user(&mut self, user: User) -> (r: bool)
        requires
            old(self).wf(),
        ensures
            final(self).wf(),
            r == (user_index(old(self).users@, user.email@) < 0),
            r ==> final(self).users@ == old(self).users@.push(user),
            !r ==> final(self).users@ == old(self).users@,
    {
        if self.find(user.email.as_str()).is_some() {
            return false;
        }
        let ghost u0 = self.users@;
        self.users.push(user);
        proof {
            assert forall|i: int, j: int|
                0 <= i < self.users@.len() && 0 <= j < self.users@.len() && i != j implies (
            #[trigger] self.users@[i]).email@ != (#[trigger] self.users@[j]).email@
                && lower_of(self.users@[i].email@) != lower_of(self.users@[j].email@) by {
                if i < u0.len() && j < u0.len() {
                    assert(self.users@[i] == u0[i]);
                    assert(self.users@[j] == u0[j]);
                } else if i < u0.len() {
                    assert(self.users@[i] == u0[i]);
                } else {
                    assert(self.users@[j] == u0[j]);
                }
            }
        }
        true
    }

    pub fn get_user_by_email(&self, email: &str) -> (r: Result<&User, RepoError>)
        requires
            self.wf(),
        ensures
            r is Err <==> user_index(self.users@, email@) < 0,
            r matches Err(e) ==> e == RepoError::NotFound,
            r matches Ok(u) ==> *u == self.users@[user_index(self.users@, email@)],
    {
        match self.find(email) {
            Some(i) => Ok(&self.users[i]),
            None => Err(RepoError::NotFound),
        }
    }

    pub fn try_get_user_by_email(&self, email: &str) -> (r: Option<&User>)
        requires
            self.wf(),
        ensures
            r is None <==> user_index(self.users@, email@) < 0,
            r matches Some(u) ==> *u == self.users@[user_index(self.users@, email@)],
    {
        match self.find(email) {
            Some(i) => Some(&self.users[i]),
            None => None,
        }
    }

    /// Replaces the stored user that has the same address.
    pub fn update_user(&mut self, user: User) -> (r: Result<(), RepoError>)
        requires
            old(self).wf(),
        ensures
            final(self).wf(),
            r is Err <==> user_index(old(self).users@, user.email@) < 0,
            r matches Err(e) ==> e == RepoError::NotFound && final(self).users@ == old(self).users@,
            r is Ok ==> final(self).users@ == old(self).users@.update(
                user_index(old(self).users@, user.email@),
                user,
            ),
    {
        match self.find(user.email.as_str()) {
            None => Err(RepoError::NotFound),
            Some(i) => {
                let ghost u0 = self.users@;
                self.users.set(i, user);
                proof {
                    assert forall|a: int, b: int|
                        0 <= a < self.users@.len() && 0 <= b < self.users@.len() && a != b implies (
                    #[trigger] self.users@[a]).email@ != (#[trigger] self.users@[b]).email@
                    && lower_of(self.users@[a].email@) != lower_of(self.users@[b].email@) by {
                        assert(lower_of(u0[a].email@) != lower_of(u0[b].email@));
                    }
                }
                Ok(())
            },
        }
    }

    /// Removes the user with address `email`, if there is one.
    pub fn delete_user_by_email(&mut self, email: &str)
        requires
            old(self).wf(),
        ensures
            final(self).wf(),
            user_index(old(self).users@, email@) < 0 ==> final(self).users@ == old(self).users@,
            user_index(old(self).users@, email@) >= 0 ==> final(self).users@ == old(self).users@.remove(
                user_index(old(self).users@, email@),
            ),
    {
        if let Some(i) = self.find(email) {
            let ghost u0 = self.users@;
            self.users.remove(i);
            proof {
                assert forall|a: int, b: int|
                    0 <= a < self.users@.len() && 0 <= b < self.users@.len() && a != b implies (
                #[trigger] self.users@[a]).email@ != (#[trigger] self.users@[b]).email@
                    && lower_of(self.users@[a].email@) != lower_of(self.users@[b].email@) by {
                    let a0 = if a < i { a } else { a + 1 };
                    let b0 = if b < i { b } else { b + 1 };
                    assert(self.users@[a] == u0[a0]);
                    assert(self.users@[b] == u0[b0]);
                }
            }
        }
    }
}

/// The store of user tokens; at most one per address.
#[derive(Debug)]
pub struct UserTokenRepo {
    pub tokens: Vec<UserToken>,
}

pub open spec fn tokens_wf(tokens: Seq<UserToken>) -> bool {
    forall|i: int, j: int|
        0 <= i < tokens.len() && 0 <= j < tokens.len() && i != j ==> (
        #[trigger] tokens[i]).email_nonce.email@ != (#[trigger] tokens[j]).email_nonce.email@
}

/// The position of the token of address `email`, or -1.
pub open spec fn token_index(tokens: Seq<UserToken>, email: Seq<char>) -> int {
    if exists|i: int| 0 <= i < tokens.len() && (#[trigger] tokens[i]).email_nonce.email@ == email {
        choose|i: int| 0 <= i < tokens.len() && (#[trigger] tokens[i]).email_nonce.email@ == email
    } else {
        -1
    }
}

/// The tokens among the first `n` that expire at or after `before`.
pub open spec fn unexpired(tokens: Seq<UserToken>, before: i64, n: int) -> Seq<UserToken>
    decreases n,
{
    if n <= 0 {
        Seq::empty()
    } else {
        let prev = unexpired(tokens, before, n - 1);
        if tokens[n - 1].expires_at < before {
            prev
        } else {
            prev.push(tokens[n - 1])
        }
    }
}

impl UserTokenRepo {
    pub open spec fn wf(&self) -> bool {
        tokens_wf(self.tokens@)
    }

    pub fn new() -> (r: UserTokenRepo)
        ensures
            r.wf(),
            r.tokens@.len() == 0,
    {
        UserTokenRepo { tokens: Vec::new() }
    }

    fn find(&self, email: &str) -> (r: Option<usize>)
        requires
            self.wf(),
        ensures
            r matches Some(i) ==> i == token_index(self.tokens@, email@),
            r is None ==> token_index(self.tokens@, email@) == -1,
    {
        let mut i: usize = 0;
        while i < self.tokens.len()
            invariant
                self.wf(),
                i <= self.tokens@.len(),
                forall|k: int|
                    0 <= k < i ==> (#[trigger] self.tokens@[k]).email_nonce.email@ != email@,
            decreases self.tokens@.len() - i,
        {
            if str_eq(self.tokens[i].email_nonce.email.as_str(), email) {
                proof {
                    lemma_token_index(self.tokens@, email@, i as int);
                }
                return Some(i);
            }
            i += 1;
        }
        None
    }

    /// Stores `token`, replacing the token of the same address if there is
    /// one.
    pub fn replace_user_token(&mut self, token: UserToken)
        requires
            old(self).wf(),
        ensures
            final(self).wf(),
            token_index(old(self).tokens@, token.email_nonce.email@) < 0 ==> final(self).tokens@
                == old(self).tokens@.push(token),
            token_index(old(self).tokens@, token.email_nonce.email@) >= 0 ==> final(self).tokens@
                == old(self).tokens@.update(
                token_index(old(self).tokens@, token.email_nonce.email@),
                token,
            ),
    {
        let ghost t0 = self.tokens@;
        match self.find(token.email_nonce.email.as_str()) {
            Some(i) => {
                self.tokens.set(i, token);
                proof {
                    assert forall|a: int, b: int|
                        0 <= a < self.tokens@.len() && 0 <= b < self.tokens@.len() && a != b implies (
                    #[trigger] self.tokens@[a]).email_nonce.email@ != (
                    #[trigger] self.tokens@[b]).email_nonce.email@ by {
                        assert(t0[a].email_nonce.email@ != t0[b].email_nonce.email@);
                    }
                }
            },
            None => {
                self.tokens.push(token);
                proof {
                    assert forall|a: int, b: int|
                        0 <= a < self.tokens@.len() && 0 <= b < self.tokens@.len() && a != b implies (
                    #[trigger] self.tokens@[a]).email_nonce.email@ != (
                    #[trigger] self.tokens@[b]).email_nonce.email@ by {
                        if a < t0.len() {
                            assert(self.tokens@[a] == t0[a]);
                        }
                        if b < t0.len() {
                            assert(self.tokens@[b] == t0[b]);
                        }
                    }
                }
            },
        }
    }

    /// Removes the tokens that expired before `expired_before`; returns how
    /// many were removed.
    pub fn delete_expired_user_tokens(&mut self, expired_before: i64) -> (r: usize)
        requires
            old(self).wf(),
        ensures
            final(self).wf(),
            final(self).tokens@ == unexpired(old(self).tokens@, expired_before, old(self).tokens@.len() as int),
            r == old(self).tokens@.len() - final(self).tokens@.len(),
    {
        let mut rest: Vec<UserToken> = Vec::new();
        std::mem::swap(&mut rest, &mut self.tokens);
        let ghost s0 = rest@;
        let n: usize = rest.len();
        let mut kept: Vec<UserToken> = Vec::new();
        let mut i: usize = 0;
        assert(rest@ =~= s0.subrange(0, n as int));
        while rest.len() > 0
            invariant
                n == s0.len(),
                tokens_wf(s0),
                i + rest@.len() == n,
                rest@ == s0.subrange(i as int, n as int),
                kept@ == unexpired(s0, expired_before, i as int),
                kept@.len() <= i,
                tokens_wf(kept@),
                forall|a: int| 0 <= a < kept@.len() ==> exists|k: int| 0 <= k < i && #[trigger] kept@[a] == s0[k],
            decreases rest@.len(),
        {
            let t = rest.remove(0);
            proof {
                assert(t == s0[i as int]);
                assert(rest@ =~= s0.subrange(i + 1, n as int));
            }
            if t.expires_at >= expired_before {
                let ghost k0 = kept@;
                kept.push(t);
                proof {
                    assert forall|a: int, b: int|
                        0 <= a < kept@.len() && 0 <= b < kept@.len() && a != b implies (
                        #[trigger] kept@[a]).email_nonce.email@ != (#[trigger] kept@[b]).email_nonce.email@ by {
                        if a < k0.len() && b < k0.len() {
                            assert(kept@[a] == k0[a] && kept@[b] == k0[b]);
                        } else if a < k0.len() {
                            assert(kept@[a] == k0[a]);
                            let k = choose|k: int| 0 <= k < i && #[trigger] k0[a] == s0[k];
                            assert(s0[k].email_nonce.email@ != s0[i as int].email_nonce.email@);
                        } else {
                            assert(kept@[b] == k0[b]);
                            let k = choose|k: int| 0 <= k < i && #[trigger] k0[b] == s0[k];
                            assert(s0[k].email_nonce.email@ != s0[i as int].email_nonce.email@);
                        }
                    }
                    assert forall|a: int| 0 <= a < kept@.len() implies exists|k: int|
                        0 <= k < i + 1 && #[trigger] kept@[a] == s0[k] by {
                        if a < k0.len() {
                            assert(kept@[a] == k0[a]);
                            let k = choose|k: int| 0 <= k < i && #[trigger] k0[a] == s0[k];
                        } else {
                            assert(kept@[a] == s0[i as int]);
                        }
                    }
                }
            }
            i += 1;
        }
        let removed = n - kept.len();
        self.tokens = kept;
        removed
    }

    /// Removes and returns the token that matches both the address and the
    /// nonce.
    pub fn consume_user_token(&mut self, email_nonce: &EmailNonce) -> (r: Result<UserToken, RepoError>)
        requires
            old(self).wf(),
        ensures
            final(self).wf(),
            ({
                let i = token_index(old(self).tokens@, email_nonce.email@);
                &&& r is Ok <==> (i >= 0 && old(self).tokens@[i].email_nonce.nonce@
                    == email_nonce.nonce@)
                &&& r matches Ok(t) ==> t == old(self).tokens@[i] && final(self).tokens@ == old(
                    self,
                ).tokens@.remove(i)
                &&& r matches Err(e) ==> e == RepoError::NotFound && final(self).tokens@ == old(
                    self,
                ).tokens@
            }),
    {
        match self.find(email_nonce.email.as_str()) {
            None => Err(RepoError::NotFound),
            Some(i) => {
                if !str_eq(self.tokens[i].email_nonce.nonce.as_str(), email_nonce.nonce.as_str()) {
                    return Err(RepoError::NotFound);
                }
                let ghost t0 = self.tokens@;
                let t = self.tokens.remove(i);
                proof {
                    assert forall|a: int, b: int|
                        0 <= a < self.tokens@.len() && 0 <= b < self.tokens@.len() && a != b implies (
                    #[trigger] self.tokens@[a]).email_nonce.email@ != (
                    #[trigger] self.tokens@[b]).email_nonce.email@ by {
                        let a0 = if a < i { a } else { a + 1 };
                        let b0 = if b < i { b } else { b + 1 };
                        assert(self.tokens@[a] == t0[a0]);
                        assert(self.tokens@[b] == t0[b0]);
                    }
                }
                Ok(t)
            },
        }
    }
}

} // verus!
