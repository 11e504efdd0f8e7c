//! Challenge-response authentication.
//!
//! A challenge is issued for a registered user, and may be answered once:
//! the first answer consumes it, whether or not its signature is valid.
//! A valid answer mints a bearer session.

use vstd::prelude::*;

use crate::api::AuthChallengeResponse;
use crate::cipher::AsymmetricCipherSpi;
use crate::data::Bytes;
use crate::error::{Error, ErrorCode};
use crate::suite::{digest_len, DigestAlgorithm};
use crate::users::{has_user, UserDirectory, UserRecord};
use crate::uuid::Uuid;

verus! {

/// How long, in seconds, a challenge may be answered after it is issued.
pub const CHALLENGE_LIFETIME: u64 = 120;

pub struct ChallengeSession {
    pub challenge_session_id: Uuid,
    pub user_id: Uuid,
    pub challenge_bytes: Bytes,
    pub digest_algorithm: DigestAlgorithm,
    pub issued_at: u64,
    pub expires_at: u64,
    pub consumed: bool,
}

/// A bearer credential for an authenticated user.
#[derive(Copy, Clone, Debug, Hash, PartialEq, Eq, Structural)]
pub struct AuthenticatedSession {
    pub token: Uuid,
    pub user_id: Uuid,
    pub expires_at: u64,
}

/// `now + span`, or the largest time when that does not fit.
pub open spec fn later(now: u64, span: u64) -> u64 {
    if now + span > u64::MAX {
        u64::MAX
    } else {
        (now + span) as u64
    }
}

fn add_time(now: u64, span: u64) -> (r: u64)
    ensures
        r == later(now, span),
{
    if now > u64::MAX - span {
        u64::MAX
    } else {
        now + span
    }
}

pub open spec fn session_ids_unique(s: Seq<ChallengeSession>) -> bool {
    forall|i: int, j: int|
        0 <= i < j < s.len() ==> (#[trigger] s[i]).challenge_session_id != (#[trigger] s[j]).challenge_session_id
}

pub open spec fn has_session(s: Seq<ChallengeSession>, id: Uuid) -> bool {
    exists|i: int| 0 <= i < s.len() && (#[trigger] s[i]).challenge_session_id == id
}

/// Whether the challenge `id` may still be answered at time `now`.
pub open spec fn answerable(s: Seq<ChallengeSession>, id: Uuid, now: u64) -> bool {
    exists|i: int|
        0 <= i < s.len() && (#[trigger] s[i]).challenge_session_id == id && !s[i].consumed && now
            < s[i].expires_at
}

/// The sessions after the challenge `id` has been used up.
pub open spec fn mark_consumed(s: Seq<ChallengeSession>, id: Uuid) -> Seq<ChallengeSession> {
    s.map_values(
        |c: ChallengeSession|
            if c.challenge_session_id == id {
                ChallengeSession { consumed: true, ..c }
            } else {
                c
            },
    )
}

/// Whether a challenge can no longer be answered at `now`.
pub open spec fn spent(c: ChallengeSession, now: u64) -> bool {
    c.consumed || now >= c.expires_at
}

/// `s` without the challenges spent at `now`, order kept.
pub open spec fn live_at(s: Seq<ChallengeSession>, now: u64) -> Seq<ChallengeSession>
    decreases s.len(),
{
    if s.len() == 0 {
        Seq::empty()
    } else if spent(s.last(), now) {
        live_at(s.drop_last(), now)
    } else {
        live_at(s.drop_last(), now).push(s.last())
    }
}

/// Whether the answer `signature` to the challenge `id` at `now` is good:
/// the challenge is answerable, and the verifier accepts the signature over
/// its data with the registered algorithm and key of its user.
pub open spec fn answer_accepted<V: AsymmetricCipherSpi>(
    s: Seq<ChallengeSession>,
    users: Seq<UserRecord>,
    verifier: V,
    id: Uuid,
    signature: Seq<u8>,
    now: u64,
) -> bool {
    exists|i: int, u: int|
        0 <= i < s.len() && 0 <= u < users.len() && (#[trigger] s[i]).challenge_session_id == id
            && !s[i].consumed && now < s[i].expires_at && (#[trigger] users[u]).userid
            == s[i].user_id && verifier.accepts(
            users[u].key_pair_algorithm,
            users[u].pubkey@,
            s[i].challenge_bytes@,
            signature,
        )
}

/// The outcome of an answer, once the signature has been checked.
pub open spec fn answer_outcome(
    signature_valid: bool,
    user_id: Uuid,
    token: Uuid,
    now: u64,
    lifetime: u64,
) -> Option<AuthenticatedSession> {
    if signature_valid {
        Some(AuthenticatedSession { token, user_id, expires_at: later(now, lifetime) })
    } else {
        None
    }
}

/// Mints the session for an answer whose signature check gave
/// `signature_valid`.
pub fn complete_challenge(
    signature_valid: bool,
    user_id: Uuid,
    token: Uuid,
    now: u64,
    lifetime: u64,
) -> (r: Result<AuthenticatedSession, Error>)
    ensures
        match r {
            Ok(a) => answer_outcome(signature_valid, user_id, token, now, lifetime) == Some(a),
            Err(e) => answer_outcome(signature_valid, user_id, token, now, lifetime) is None
                && e.spec_code() == ErrorCode::NotAuthenticated,
        },
{
    if signature_valid {
        Ok(AuthenticatedSession { token, user_id, expires_at: add_time(now, lifetime) })
    } else {
        Err(Error::new(ErrorCode::NotAuthenticated, "not authenticated"))
    }
}

/// The challenges issued and not yet discarded.
pub struct ChallengeStore {
    sessions: Vec<ChallengeSession>,
}

impl ChallengeStore {
    pub closed spec fn spec_sessions(&self) -> Seq<ChallengeSession> {
        self.sessions@
    }

    pub open spec fn wf(&self) -> bool {
        session_ids_unique(self.spec_sessions())
    }

    pub fn new() -> (r: ChallengeStore)
        ensures
            r.spec_sessions() == Seq::<ChallengeSession>::empty(),
            r.wf(),
    {
        let r = ChallengeStore { sessions: Vec::new() };
        assert(r.spec_sessions() =~= Seq::<ChallengeSession>::empty());
        r
    }

    pub fn len(&self) -> (r: usize)
        ensures
            r == self.spec_sessions().len(),
    {
        self.sessions.len()
    }

    /// Discards the challenges that are used up or expired at `now`; they
    /// could not be answered anyway.
    pub fn discard_spent(&mut self, now: u64)
        requires
            old(self).wf(),
        ensures
            final(self).wf(),
            final(self).spec_sessions() == live_at(old(self).spec_sessions(), now),
    {
        let ghost before = self.sessions@;
        let n = self.sessions.len();
        let mut kept: Vec<ChallengeSession> = Vec::new();
        let mut rest: Vec<ChallengeSession> = Vec::new();
        std::mem::swap(&mut rest, &mut self.sessions);
        let mut i: usize = 0;
        assert(before.subrange(0, 0) =~= Seq::<ChallengeSession>::empty());
        while i < n
            invariant
                n == before.len(),
                rest@ == before.subrange(i as int, n as int),
                session_ids_unique(before),
                i <= n,
                kept@ == live_at(before.subrange(0, i as int), now),
                forall|j: int|
                    0 <= j < kept@.len() ==> exists|k: int| 0 <= k < i && before[k] == #[trigger] kept@[j],
                session_ids_unique(kept@),
            decreases n - i,
        {
            let c = rest.remove(0);
            assert(c == before[i as int]);
            assert(rest@ =~= before.subrange(i + 1, n as int));
            assert(before.subrange(0, i + 1).drop_last() =~= before.subrange(0, i as int));
            if !c.consumed && now < c.expires_at {
                proof {
                    assert forall|j: int| 0 <= j < kept@.len() implies (#[trigger] kept@[j]).challenge_session_id != c.challenge_session_id by {
                        let k = choose|k: int| 0 <= k < i && before[k] == kept@[j];
                        assert(before[k].challenge_session_id != before[i as int].challenge_session_id);
                    }
                }
                kept.push(c);
            }
            i = i + 1;
        }
        assert(before.subrange(0, n as int) =~= before);
        self.sessions = kept;
    }

    fn find(&self, id: Uuid) -> (r: Option<usize>)
        ensures
            match r {
                Some(i) => i < self.spec_sessions().len()
                    && self.spec_sessions()[i as int].challenge_session_id == id,
                None => !has_session(self.spec_sessions(), id),
            },
    {
        let n = self.sessions.len();
        let mut i: usize = 0;
        while i < n
            invariant
                n == self.sessions@.len(),
                i <= n,
                forall|j: int| 0 <= j < i ==> (#[trigger] self.sessions@[j]).challenge_session_id != id,
            decreases n - i,
        {
            if self.sessions[i].challenge_session_id.same(&id) {
                return Some(i);
            }
            i = i + 1;
        }
        None
    }

    /// Answers the challenge `session_id` with `signature`, checked by
    /// `verifier` against the user's public key over the challenge data. An
    /// answerable challenge is consumed by this call whatever the outcome;
    /// one that is unknown, used or expired leaves the store as it was. Any
    /// failure is `NotAuthenticated`. A success mints a session under
    /// `token`, valid for `lifetime` seconds; it succeeds exactly when the
    /// challenge is answerable, its user is registered, and the verifier
    /// accepts `signature` over the challenge data under that user's
    /// algorithm and public key.
    pub fn fulfill_challenge<V: AsymmetricCipherSpi>(
        &mut self,
        users: &UserDirectory,
        verifier: &V,
        session_id: Uuid,
        signature: &Bytes,
        token: Uuid,
        now: u64,
        lifetime: u64,
    ) -> (r: Result<AuthenticatedSession, Error>)
        requires
            old(self).wf(),
            users.wf(),
        ensures
            final(self).wf(),
            r is Ok <==> answer_accepted(
                old(self).spec_sessions(),
                users.spec_users(),
                *verifier,
                session_id,
                signature@,
                now,
            ),
            answerable(old(self).spec_sessions(), session_id, now) ==> final(self).spec_sessions()
                == mark_consumed(old(self).spec_sessions(), session_id),
            !answerable(old(self).spec_sessions(), session_id, now) ==> final(self).spec_sessions()
                == old(self).spec_sessions() && r is Err,
            match r {
                Ok(a) => {
                    &&& a.token == token
                    &&& a.expires_at == later(now, lifetime)
                    &&& has_user(users.spec_users(), a.user_id)
                    &&& exists|i: int|
                        0 <= i < old(self).spec_sessions().len()
                            && (#[trigger] old(self).spec_sessions()[i]).challenge_session_id
                            == session_id && old(self).spec_sessions()[i].user_id == a.user_id
                },
                Err(e) => e.spec_code() == ErrorCode::NotAuthenticated,
            },
    {
        let ghost before = self.sessions@;
        let i = match self.find(session_id) {
            Some(i) => i,
            None => return Err(Error::new(ErrorCode::NotAuthenticated, "not authenticated")),
        };
        proof {
            assert forall|j: int|
                0 <= j < before.len() && (#[trigger] before[j]).challenge_session_id
                    == session_id implies j == i as int by {
                if j != i as int {
                    if j < i as int {
                        assert(before[j].challenge_session_id != before[i as int].challenge_session_id);
                    } else {
                        assert(before[i as int].challenge_session_id != before[j].challenge_session_id);
                    }
                }
            }
        }
        if self.sessions[i].consumed || now >= self.sessions[i].expires_at {
            return Err(Error::new(ErrorCode::NotAuthenticated, "not authenticated"));
        }
        let mut spent = self.sessions.remove(i);
        spent.consumed = true;
        self.sessions.insert(i, spent);
        assert(self.sessions@ =~= mark_consumed(before, session_id));
        let sess = &self.sessions[i];
        let u = match users.find(sess.user_id) {
            Some(u) => u,
            None => {
                assert forall|i2: int, u2: int|
                    0 <= i2 < before.len() && 0 <= u2 < users.spec_users().len()
                        && (#[trigger] before[i2]).challenge_session_id == session_id && (
                    #[trigger] users.spec_users()[u2]).userid == before[i2].user_id implies false by {
                    assert(i2 == i as int);
                }
                return Err(Error::new(ErrorCode::NotAuthenticated, "not authenticated"));
            },
        };
        let user = users.get(u);
        proof {
            let us = users.spec_users();
            assert forall|v: int|
                0 <= v < us.len() && (#[trigger] us[v]).userid == before[i as int].user_id implies v
                == u as int by {
                if v < u as int {
                    assert(us[v].userid != us[u as int].userid);
                } else if v > u as int {
                    assert(us[u as int].userid != us[v].userid);
                }
            }
        }
        let valid = verifier.verify(
            user.key_pair_algorithm,
            user.pubkey.as_slice(),
            sess.challenge_bytes.as_slice(),
            signature.as_slice(),
        );
        complete_challenge(valid, sess.user_id, token, now, lifetime)
    }

    /// Issues a challenge to `user_id`, to be answered under `session_id`
    /// before `now + CHALLENGE_LIFETIME`. `challenge` is the random data to
    /// sign and must be as long as a digest of the user's digest algorithm.
    /// An unknown user gives `NotFound`; a session id already in use gives
    /// `Conflict`; a challenge of the wrong length gives `Malformed`.
    pub fn begin_challenge(
        &mut self,
        users: &UserDirectory,
        user_id: Uuid,
        session_id: Uuid,
        challenge: Bytes,
        now: u64,
    ) -> (r: Result<AuthChallengeResponse, Error>)
        requires
            old(self).wf(),
            users.wf(),
        ensures
            final(self).wf(),
            match r {
                Ok(resp) => {
                    &&& has_user(users.spec_users(), user_id)
                    &&& !has_session(old(self).spec_sessions(), session_id)
                    &&& exists|u: int|
                        0 <= u < users.spec_users().len() && (#[trigger] users.spec_users()[u]).userid
                            == user_id && resp.challenge_digest
                            == users.spec_users()[u].address_digest_algorithm && challenge@.len()
                            == digest_len(resp.challenge_digest)
                            && final(self).spec_sessions() == old(self).spec_sessions().push(
                            ChallengeSession {
                                challenge_session_id: session_id,
                                user_id,
                                challenge_bytes: challenge,
                                digest_algorithm: resp.challenge_digest,
                                issued_at: now,
                                expires_at: later(now, CHALLENGE_LIFETIME),
                                consumed: false,
                            },
                        )
                    &&& resp.challenge_bytes@ == challenge@
                },
                Err(e) => {
                    &&& final(self).spec_sessions() == old(self).spec_sessions()
                    &&& !has_user(users.spec_users(), user_id) ==> e.spec_code()
                        == ErrorCode::NotFound
                    &&& has_user(users.spec_users(), user_id) && has_session(
                        old(self).spec_sessions(),
                        session_id,
                    ) ==> e.spec_code() == ErrorCode::Conflict
                    &&& has_user(users.spec_users(), user_id) && !has_session(
                        old(self).spec_sessions(),
                        session_id,
                    ) ==> e.spec_code() == ErrorCode::Malformed && forall|u: int|
                        0 <= u < users.spec_users().len() && (#[trigger] users.spec_users()[u]).userid
                            == user_id ==> challenge@.len() != digest_len(
                            users.spec_users()[u].address_digest_algorithm,
                        )
                },
            },
    {
        let u = match users.find(user_id) {
            Some(u) => u,
            None => return Err(Error::new(ErrorCode::NotFound, "unknown user")),
        };
        let digest = users.get(u).address_digest_algorithm;
        proof {
            assert forall|v: int|
                0 <= v < users.spec_users().len() && (#[trigger] users.spec_users()[v]).userid
                    == user_id implies v == u as int by {
                if v != u as int {
                    if v < u as int {
                        assert(users.spec_users()[v].userid != users.spec_users()[u as int].userid);
                    } else {
                        assert(users.spec_users()[u as int].userid != users.spec_users()[v].userid);
                    }
                }
            }
        }
        if self.find(session_id).is_some() {
            return Err(Error::new(ErrorCode::Conflict, "challenge session id in use"));
        }
        if challenge.len() != digest.output_len() {
            return Err(Error::new(ErrorCode::Malformed, "challenge has the wrong length"));
        }
        let resp = AuthChallengeResponse {
            challenge_digest: digest,
            challenge_bytes: challenge.duplicate(),
        };
        self.sessions.push(
            ChallengeSession {
                challenge_session_id: session_id,
                user_id,
                challenge_bytes: challenge,
                digest_algorithm: digest,
                issued_at: now,
                expires_at: add_time(now, CHALLENGE_LIFETIME),
                consumed: false,
            },
        );
        Ok(resp)
    }
}

/// A challenge that has been used can never be answered again, at any
/// later time: of any number of answers, at most the first succeeds.
pub proof fn lemma_challenge_single_use(s: Seq<ChallengeSession>, id: Uuid, at: u64)
    ensures
        !answerable(mark_consumed(s, id), id, at),
{
}

/// Whether `token` names a session of `sessions` that is still valid at
/// `now`, for the user `user`.
pub open spec fn grants(s: Seq<AuthenticatedSession>, token: Uuid, now: u64, user: Uuid) -> bool {
    exists|i: int|
        0 <= i < s.len() && (#[trigger] s[i]).token == token && now < s[i].expires_at
            && s[i].user_id == user
}

pub open spec fn tokens_unique(s: Seq<AuthenticatedSession>) -> bool {
    forall|i: int, j: int| 0 <= i < j < s.len() ==> (#[trigger] s[i]).token != (#[trigger] s[j]).token
}

/// `s` without the session named `token`.
pub open spec fn without_token(s: Seq<AuthenticatedSession>, token: Uuid) -> Seq<AuthenticatedSession>
    decreases s.len(),
{
    if s.len() == 0 {
        Seq::empty()
    } else if s.last().token == token {
        without_token(s.drop_last(), token)
    } else {
        without_token(s.drop_last(), token).push(s.last())
    }
}

/// `s` without the sessions of `user`.
pub open spec fn without_user(s: Seq<AuthenticatedSession>, user: Uuid) -> Seq<AuthenticatedSession>
    decreases s.len(),
{
    if s.len() == 0 {
        Seq::empty()
    } else if s.last().user_id == user {
        without_user(s.drop_last(), user)
    } else {
        without_user(s.drop_last(), user).push(s.last())
    }
}

/// The bearer sessions minted so far and not revoked.
pub struct SessionRegistry {
    sessions: Vec<AuthenticatedSession>,
}

impl SessionRegistry {
    pub closed spec fn spec_sessions(&self) -> Seq<AuthenticatedSession> {
        self.sessions@
    }

    pub open spec fn wf(&self) -> bool {
        tokens_unique(self.spec_sessions())
    }

    pub fn new() -> (r: SessionRegistry)
        ensures
            r.spec_sessions() == Seq::<AuthenticatedSession>::empty(),
            r.wf(),
    {
        let r = SessionRegistry { sessions: Vec::new() };
        assert(r.spec_sessions() =~= Seq::<AuthenticatedSession>::empty());
        r
    }

    fn find(&self, token: Uuid) -> (r: Option<usize>)
        ensures
            match r {
                Some(i) => i < self.spec_sessions().len() && self.spec_sessions()[i as int].token
                    == token,
                None => forall|j: int|
                    0 <= j < self.spec_sessions().len() ==> (#[trigger] self.spec_sessions()[j]).token
                        != token,
            },
    {
        let n = self.sessions.len();
        let mut i: usize = 0;
        while i < n
            invariant
                n == self.sessions@.len(),
                i <= n,
                forall|j: int| 0 <= j < i ==> (#[trigger] self.sessions@[j]).token != token,
            decreases n - i,
        {
            if self.sessions[i].token.ct_eq(&token) {
                return Some(i);
            }
            i = i + 1;
        }
        None
    }

    /// Records a minted session; refused when its token is already in use.
    pub fn insert(&mut self, session: AuthenticatedSession) -> (r: bool)
        requires
            old(self).wf(),
        ensures
            final(self).wf(),
            r ==> final(self).spec_sessions() == old(self).spec_sessions().push(session),
            !r ==> final(self).spec_sessions() == old(self).spec_sessions(),
            r == forall|j: int|
                0 <= j < old(self).spec_sessions().len() ==> (#[trigger] old(
                    self,
                ).spec_sessions()[j]).token != session.token,
    {
        match self.find(session.token) {
            Some(_) => false,
            None => {
                self.sessions.push(session);
                true
            },
        }
    }

    /// The user that `token` authenticates at `now`, if it is a live session.
    pub fn resolve(&self, token: Uuid, now: u64) -> (r: Option<Uuid>)
        requires
            self.wf(),
        ensures
            match r {
                Some(u) => grants(self.spec_sessions(), token, now, u),
                None => forall|u: Uuid| !grants(self.spec_sessions(), token, now, u),
            },
    {
        match self.find(token) {
            Some(i) => {
                let s = self.sessions[i];
                if now < s.expires_at {
                    Some(s.user_id)
                } else {
                    assert forall|u: Uuid| !grants(self.spec_sessions(), token, now, u) by {
                        assert forall|j: int|
                            0 <= j < self.sessions@.len() && (#[trigger] self.sessions@[j]).token
                                == token implies j == i as int by {
                            if j < i as int {
                                assert(self.sessions@[j].token != self.sessions@[i as int].token);
                            } else if j > i as int {
                                assert(self.sessions@[i as int].token != self.sessions@[j].token);
                            }
                        }
                    }
                    None
                }
            },
            None => None,
        }
    }

    /// Ends every session of `user`, as on a password change or when the
    /// account is deleted.
    pub fn revoke_user(&mut self, user: Uuid)
        requires
            old(self).wf(),
        ensures
            final(self).wf(),
            final(self).spec_sessions() == without_user(old(self).spec_sessions(), user),
            forall|t: Uuid, now: u64| !grants(final(self).spec_sessions(), t, now, user),
    {
        let ghost before = self.sessions@;
        let n = self.sessions.len();
        let mut kept: Vec<AuthenticatedSession> = Vec::new();
        let mut i: usize = 0;
        assert(before.subrange(0, 0) =~= Seq::<AuthenticatedSession>::empty());
        while i < n
            invariant
                n == before.len(),
                before == self.sessions@,
                tokens_unique(before),
                i <= n,
                kept@ == without_user(before.subrange(0, i as int), user),
                forall|j: int| 0 <= j < kept@.len() ==> (#[trigger] kept@[j]).user_id != user,
                forall|j: int| 0 <= j < kept@.len() ==> exists|k: int| 0 <= k < i && before[k] == #[trigger] kept@[j],
                tokens_unique(kept@),
            decreases n - i,
        {
            let s = self.sessions[i];
            assert(before.subrange(0, i + 1).drop_last() =~= before.subrange(0, i as int));
            if !s.user_id.same(&user) {
                proof {
                    assert forall|j: int| 0 <= j < kept@.len() implies (#[trigger] kept@[j]).token != s.token by {
                        let k = choose|k: int| 0 <= k < i && before[k] == kept@[j];
                        assert(before[k].token != before[i as int].token);
                    }
                }
                kept.push(s);
            }
            i = i + 1;
        }
        assert(before.subrange(0, n as int) =~= before);
        self.sessions = kept;
    }

    /// Ends the session named `token`, as on logout.
    pub fn revoke(&mut self, token: Uuid)
        requires
            old(self).wf(),
        ensures
            final(self).wf(),
            final(self).spec_sessions() == without_token(old(self).spec_sessions(), token),
            forall|u: Uuid, t: u64| !grants(final(self).spec_sessions(), token, t, u),
    {
        let ghost before = self.sessions@;
        let n = self.sessions.len();
        let mut kept: Vec<AuthenticatedSession> = Vec::new();
        let mut i: usize = 0;
        assert(before.subrange(0, 0) =~= Seq::<AuthenticatedSession>::empty());
        while i < n
            invariant
                n == before.len(),
                before == self.sessions@,
                tokens_unique(before),
                i <= n,
                kept@ == without_token(before.subrange(0, i as int), token),
                forall|j: int| 0 <= j < kept@.len() ==> (#[trigger] kept@[j]).token != token,
                forall|j: int| 0 <= j < kept@.len() ==> exists|k: int| 0 <= k < i && before[k] == #[trigger] kept@[j],
                tokens_unique(kept@),
            decreases n - i,
        {
            let s = self.sessions[i];
            assert(before.subrange(0, i + 1).drop_last() =~= before.subrange(0, i as int));
            if !s.token.ct_eq(&token) {
                proof {
                    assert forall|j: int| 0 <= j < kept@.len() implies (#[trigger] kept@[j]).token != s.token by {
                        let k = choose|k: int| 0 <= k < i && before[k] == kept@[j];
                        assert(before[k].token != before[i as int].token);
                    }
                }
                kept.push(s);
            }
            i = i + 1;
        }
        assert(before.subrange(0, n as int) =~= before);
        self.sessions = kept;
    }
}

} // verus!
