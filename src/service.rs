use crate::bignat::{be_value, BigNat};
use crate::error::AuthError;
use crate::bignat::mod_pow_spec;
use crate::zkp::{
    deserialize, lemma_completeness, solve_spec, is_alphanumeric, random_number, random_string, serialize, verify, verify_spec,
    VerifyParams,
};
use vstd::arithmetic::power::pow;
use vstd::arithmetic::power2::pow2;
use vstd::hash_map::StringHashMap;
use vstd::prelude::*;

verus! {

/// Length of an authentication identifier.
pub const AUTH_ID_LEN: usize = 6;

/// Length of a session identifier.
pub const SESSION_ID_LEN: usize = 9;

/// The group description `(g, h, p, q)` that prover and verifier share.
pub struct PublicParameters {
    pub g: BigNat,
    pub h: BigNat,
    pub p: BigNat,
    pub q: BigNat,
}

/// What the verifier stores for one user.
pub struct UserInfo {
    pub y1: BigNat,
    pub y2: BigNat,
    pub r1: BigNat,
    pub r2: BigNat,
    pub c: BigNat,
    pub session_id: String,
}

/// The value of a [`UserInfo`].
pub struct UserRecord {
    pub y1: nat,
    pub y2: nat,
    pub r1: nat,
    pub r2: nat,
    pub c: nat,
    pub session_id: Seq<char>,
}

impl View for UserInfo {
    type V = UserRecord;

    open spec fn view(&self) -> UserRecord {
        UserRecord {
            y1: self.y1@,
            y2: self.y2@,
            r1: self.r1@,
            r2: self.r2@,
            c: self.c@,
            session_id: self.session_id@,
        }
    }
}

/// The value of an [`AuthService`]: the public parameters, the credential
/// store keyed by user, and the session store from authentication identifier
/// to user.
pub struct AuthState {
    pub g: nat,
    pub h: nat,
    pub p: nat,
    pub users: Map<Seq<char>, UserRecord>,
    pub sessions: Map<Seq<char>, Seq<char>>,
}

/// The credential that registration stores: commitments, nothing pending.
pub open spec fn fresh_record(y1: nat, y2: nat) -> UserRecord {
    UserRecord { y1, y2, r1: 0, r2: 0, c: 0, session_id: Seq::empty() }
}

/// The state after `user` registers `(y1, y2)`.
pub open spec fn registered(st: AuthState, user: Seq<char>, y1: nat, y2: nat) -> AuthState {
    AuthState { users: st.users.insert(user, fresh_record(y1, y2)), ..st }
}

/// The state after challenge `c` is issued to `user` for commitments `(r1, r2)`
/// under `auth_id`.
pub open spec fn challenged(
    st: AuthState,
    user: Seq<char>,
    r1: nat,
    r2: nat,
    auth_id: Seq<char>,
    c: nat,
) -> AuthState {
    let rec = st.users[user];
    AuthState {
        users: st.users.insert(user, UserRecord { r1, r2, c, ..rec }),
        sessions: st.sessions.insert(auth_id, user),
        ..st
    }
}

/// The state after `user` is given `session_id`.
pub open spec fn authenticated(st: AuthState, user: Seq<char>, session_id: Seq<char>) -> AuthState {
    let rec = st.users[user];
    AuthState { users: st.users.insert(user, UserRecord { session_id, ..rec }), ..st }
}

/// The answer `s` under `auth_id` satisfies both equations for the credential
/// of the user the identifier belongs to.
pub open spec fn answer_accepted(st: AuthState, auth_id: Seq<char>, s: nat) -> bool {
    let user = st.sessions[auth_id];
    let rec = st.users[user];
    &&& st.sessions.contains_key(auth_id)
    &&& st.users.contains_key(user)
    &&& verify_spec(st.g, st.h, st.p, rec.y1, rec.y2, rec.r1, rec.r2, rec.c, s)
}

/// The error that answering under `auth_id` gets, if any.
pub open spec fn answer_error(st: AuthState, auth_id: Seq<char>, s: nat) -> Option<AuthError> {
    if !st.sessions.contains_key(auth_id) {
        Some(AuthError::SessionNotFound)
    } else if !st.users.contains_key(st.sessions[auth_id]) {
        Some(AuthError::UserNotFound)
    } else if !answer_accepted(st, auth_id, s) {
        Some(AuthError::VerificationFailed)
    } else {
        None
    }
}

/// The verifier: public parameters, credential store and session store.
pub struct AuthService {
    params: PublicParameters,
    user_data: StringHashMap<UserInfo>,
    auth_info: StringHashMap<String>,
}

impl View for AuthService {
    type V = AuthState;

    closed spec fn view(&self) -> AuthState {
        AuthState {
            g: self.params.g@,
            h: self.params.h@,
            p: self.params.p@,
            users: self.user_data@.map_values(|u: UserInfo| u@),
            sessions: self.auth_info@.map_values(|a: String| a@),
        }
    }
}

impl AuthService {
    /// The modulus is positive, and every authentication identifier belongs
    /// to a registered user.
    pub open spec fn wf(&self) -> bool {
        &&& self@.p > 0
        &&& forall|a: Seq<char>| #[trigger]
            self@.sessions.contains_key(a) ==> self@.users.contains_key(self@.sessions[a])
    }

    /// A verifier with no users and no sessions; a zero modulus is refused.
    pub fn new(params: PublicParameters) -> (r: Result<AuthService, AuthError>)
        ensures
            params.p@ == 0 <==> r == Err::<AuthService, AuthError>(AuthError::InvalidParameters),
            params.p@ > 0 ==> r is Ok,
            r matches Ok(svc) ==> {
                &&& svc.wf()
                &&& svc@.g == params.g@
                &&& svc@.h == params.h@
                &&& svc@.p == params.p@
                &&& svc@.users == Map::<Seq<char>, UserRecord>::empty()
                &&& svc@.sessions == Map::<Seq<char>, Seq<char>>::empty()
            },
    {
        let zero = BigNat::from_u64(0);
        if crate::bignat::equals(&params.p, &zero) {
            return Err(AuthError::InvalidParameters);
        }
        let svc = AuthService {
            params,
            user_data: StringHashMap::new(),
            auth_info: StringHashMap::new(),
        };
        proof {
            assert(svc@.users =~= Map::<Seq<char>, UserRecord>::empty());
            assert(svc@.sessions =~= Map::<Seq<char>, Seq<char>>::empty());
        }
        Ok(svc)
    }

    /// The credential stored for `user`, if any.
    pub fn user(&self, user: &str) -> (r: Option<&UserInfo>)
        ensures
            match r {
                Some(info) => self@.users.contains_key(user@) && info@ == self@.users[user@],
                None => !self@.users.contains_key(user@),
            },
    {
        self.user_data.get(user)
    }

    /// The user that `auth_id` belongs to, if any.
    pub fn session_user(&self, auth_id: &str) -> (r: Option<&String>)
        ensures
            match r {
                Some(u) => self@.sessions.contains_key(auth_id@) && u@ == self@.sessions[auth_id@],
                None => !self@.sessions.contains_key(auth_id@),
            },
    {
        self.auth_info.get(auth_id)
    }

    /// Stores the commitments `(y1, y2)`, given as big-endian bytes, as the
    /// credential of `user`, replacing any earlier one and clearing what was
    /// pending.
    pub fn register(&mut self, user: String, y1: &[u8], y2: &[u8])
        requires
            old(self).wf(),
        ensures
            final(self).wf(),
            final(self)@ == registered(old(self)@, user@, be_value(y1@), be_value(y2@)),
    {
        let info = UserInfo {
            y1: deserialize(y1),
            y2: deserialize(y2),
            r1: BigNat::from_u64(0),
            r2: BigNat::from_u64(0),
            c: BigNat::from_u64(0),
            session_id: String::new(),
        };
        let ghost before = self@;
        self.user_data.insert(user, info);
        proof {
            assert(self@.users =~= before.users.insert(user@, info@));
            assert(self@.sessions == before.sessions);
            assert forall|a: Seq<char>| #[trigger]
                self@.sessions.contains_key(a) implies self@.users.contains_key(
                self@.sessions[a],
            ) by {
                assert(before.users.contains_key(before.sessions[a]));
            }
        }
    }

    /// Issues challenge `c` under `auth_id` to `user` for the commitments
    /// `(r1, r2)`; an unknown user is refused and nothing changes.
    pub fn issue_challenge(
        &mut self,
        user: String,
        r1: BigNat,
        r2: BigNat,
        auth_id: String,
        c: BigNat,
    ) -> (r: Result<(String, BigNat), AuthError>)
        requires
            old(self).wf(),
        ensures
            final(self).wf(),
            old(self)@.users.contains_key(user@) ==> (r matches Ok((a, cc)) && a@ == auth_id@
                && cc@ == c@ && final(self)@ == challenged(
                old(self)@,
                user@,
                r1@,
                r2@,
                auth_id@,
                c@,
            )),
            !old(self)@.users.contains_key(user@) ==> r == Err::<(String, BigNat), AuthError>(
                AuthError::UserNotFound,
            ) && final(self)@ == old(self)@,
    {
        let ghost before = self@;
        let updated = match self.user_data.get(user.as_str()) {
            Some(info) => UserInfo {
                y1: info.y1.copied(),
                y2: info.y2.copied(),
                r1,
                r2,
                c: c.copied(),
                session_id: info.session_id.clone(),
            },
            None => {
                return Err(AuthError::UserNotFound);
            },
        };
        self.user_data.insert(user.clone(), updated);
        self.auth_info.insert(auth_id.clone(), user);
        proof {
            assert(self@.users =~= before.users.insert(user@, updated@));
            assert(self@.sessions =~= before.sessions.insert(auth_id@, user@));
        }
        Ok((auth_id, c))
    }

    /// Issues a fresh random challenge to `user` for the commitments `(r1, r2)`,
    /// given as big-endian bytes, and returns the new authentication identifier
    /// with the challenge's bytes; an unknown user is refused and nothing
    /// changes.
    pub fn create_authentication_challenge(&mut self, user: String, r1: &[u8], r2: &[u8]) -> (r:
        Result<(String, Vec<u8>), AuthError>)
        requires
            old(self).wf(),
        ensures
            final(self).wf(),
            old(self)@.users.contains_key(user@) <==> r is Ok,
            r matches Ok((a, cb)) ==> {
                &&& a@.len() == AUTH_ID_LEN
                &&& forall|i: int| 0 <= i < a@.len() ==> is_alphanumeric(#[trigger] a@[i])
                &&& be_value(cb@) < pow2(crate::zkp::RANDOM_BITS as nat)
                &&& final(self)@ == challenged(
                    old(self)@,
                    user@,
                    be_value(r1@),
                    be_value(r2@),
                    a@,
                    be_value(cb@),
                )
            },
            r is Err ==> r == Err::<(String, Vec<u8>), AuthError>(AuthError::UserNotFound)
                && final(self)@ == old(self)@,
    {
        let auth_id = random_string(AUTH_ID_LEN);
        let c = random_number();
        match self.issue_challenge(user, deserialize(r1), deserialize(r2), auth_id, c) {
            Ok((a, cc)) => Ok((a, serialize(&cc))),
            Err(e) => Err(e),
        }
    }

    /// Checks the answer `s` to the challenge issued under `auth_id`; on
    /// success stores `session_id` for the user and returns it, otherwise
    /// changes nothing.
    pub fn answer_challenge(&mut self, auth_id: &str, s: &BigNat, session_id: String) -> (r:
        Result<String, AuthError>)
        requires
            old(self).wf(),
        ensures
            final(self).wf(),
            answer_error(old(self)@, auth_id@, s@) matches Some(e) ==> r == Err::<String, AuthError>(e)
                && final(self)@ == old(self)@,
            answer_error(old(self)@, auth_id@, s@) is None ==> (r matches Ok(sid) && sid@
                == session_id@ && final(self)@ == authenticated(
                old(self)@,
                old(self)@.sessions[auth_id@],
                session_id@,
            )),
    {
        let ghost before = self@;
        let user = match self.auth_info.get(auth_id) {
            Some(u) => u.clone(),
            None => {
                return Err(AuthError::SessionNotFound);
            },
        };
        let updated = match self.user_data.get(user.as_str()) {
            Some(info) => {
                let params = VerifyParams {
                    g: &self.params.g,
                    h: &self.params.h,
                    p: &self.params.p,
                    y1: &info.y1,
                    y2: &info.y2,
                    r1: &info.r1,
                    r2: &info.r2,
                    c: &info.c,
                    s,
                };
                if !verify(params) {
                    return Err(AuthError::VerificationFailed);
                }
                UserInfo {
                    y1: info.y1.copied(),
                    y2: info.y2.copied(),
                    r1: info.r1.copied(),
                    r2: info.r2.copied(),
                    c: info.c.copied(),
                    session_id: session_id.clone(),
                }
            },
            None => {
                return Err(AuthError::UserNotFound);
            },
        };
        self.user_data.insert(user, updated);
        proof {
            assert(self@.users =~= before.users.insert(before.sessions[auth_id@], updated@));
        }
        Ok(session_id)
    }

    /// Checks the answer `s`, given as big-endian bytes, to the challenge
    /// issued under `auth_id`; on success mints a fresh random session
    /// identifier, stores it for the user and returns it, otherwise changes
    /// nothing.
    pub fn verify_authentication(&mut self, auth_id: &str, s: &[u8]) -> (r: Result<String, AuthError>)
        requires
            old(self).wf(),
        ensures
            final(self).wf(),
            answer_error(old(self)@, auth_id@, be_value(s@)) matches Some(e) ==> r == Err::<
                String,
                AuthError,
            >(e) && final(self)@ == old(self)@,
            answer_error(old(self)@, auth_id@, be_value(s@)) is None ==> (r matches Ok(sid)
                && sid@.len() == SESSION_ID_LEN && (forall|i: int|
                0 <= i < sid@.len() ==> is_alphanumeric(#[trigger] sid@[i])) && final(self)@
                == authenticated(
                old(self)@,
                old(self)@.sessions[auth_id@],
                sid@,
            )),
    {
        let session_id = random_string(SESSION_ID_LEN);
        let s = deserialize(s);
        self.answer_challenge(auth_id, &s, session_id)
    }
}

/// Registering a user twice keeps the second commitments only: the state is
/// that of a single registration with them, whose credential has nothing
/// pending.
pub proof fn lemma_register_replaces(
    st: AuthState,
    user: Seq<char>,
    y1: nat,
    y2: nat,
    y1_new: nat,
    y2_new: nat,
)
    ensures
        registered(registered(st, user, y1, y2), user, y1_new, y2_new) == registered(
            st,
            user,
            y1_new,
            y2_new,
        ),
        registered(st, user, y1_new, y2_new).users[user] == fresh_record(y1_new, y2_new),
{
    assert(registered(registered(st, user, y1, y2), user, y1_new, y2_new).users =~= registered(
        st,
        user,
        y1_new,
        y2_new,
    ).users);
}

/// Operations for one user leave the credential of every other user as it
/// was, and the outcome of answering under another user's authentication
/// identifier too.
pub proof fn lemma_users_independent(
    st: AuthState,
    user: Seq<char>,
    other: Seq<char>,
    y1: nat,
    y2: nat,
    r1: nat,
    r2: nat,
    auth_id: Seq<char>,
    c: nat,
    session_id: Seq<char>,
    other_auth_id: Seq<char>,
    s: nat,
)
    requires
        user != other,
        st.users.contains_key(other),
        st.sessions.contains_key(other_auth_id),
        st.sessions[other_auth_id] == other,
        other_auth_id != auth_id,
    ensures
        registered(st, user, y1, y2).users[other] == st.users[other],
        challenged(st, user, r1, r2, auth_id, c).users[other] == st.users[other],
        authenticated(st, user, session_id).users[other] == st.users[other],
        answer_accepted(registered(st, user, y1, y2), other_auth_id, s) == answer_accepted(
            st,
            other_auth_id,
            s,
        ),
        answer_accepted(challenged(st, user, r1, r2, auth_id, c), other_auth_id, s)
            == answer_accepted(st, other_auth_id, s),
        answer_accepted(authenticated(st, user, session_id), other_auth_id, s) == answer_accepted(
            st,
            other_auth_id,
            s,
        ),
{
}

/// One call to the verifier, with the random values it drew: what
/// `register`, `issue_challenge` and `answer_challenge` take.
pub enum Operation {
    Register { user: Seq<char>, y1: nat, y2: nat },
    Challenge { user: Seq<char>, r1: nat, r2: nat, auth_id: Seq<char>, c: nat },
    Answer { auth_id: Seq<char>, s: nat, session_id: Seq<char> },
}

/// The state after `op`, as the method that performs it ensures; a refused
/// call changes nothing.
pub open spec fn apply(st: AuthState, op: Operation) -> AuthState {
    match op {
        Operation::Register { user, y1, y2 } => registered(st, user, y1, y2),
        Operation::Challenge { user, r1, r2, auth_id, c } => if st.users.contains_key(user) {
            challenged(st, user, r1, r2, auth_id, c)
        } else {
            st
        },
        Operation::Answer { auth_id, s, session_id } => if answer_error(st, auth_id, s) is None {
            authenticated(st, st.sessions[auth_id], session_id)
        } else {
            st
        },
    }
}

/// The state after `ops`, in order.
pub open spec fn apply_all(st: AuthState, ops: Seq<Operation>) -> AuthState
    decreases ops.len(),
{
    if ops.len() == 0 {
        st
    } else {
        apply_all(apply(st, ops[0]), ops.subrange(1, ops.len() as int))
    }
}

/// `op` is for another user than `user`: it registers or challenges someone
/// else under another identifier than `auth_id`, or answers under an
/// identifier that is not `user`'s.
pub open spec fn leaves_alone(st: AuthState, user: Seq<char>, auth_id: Seq<char>, op: Operation) -> bool {
    match op {
        Operation::Register { user: w, .. } => w != user,
        Operation::Challenge { user: w, auth_id: a, .. } => w != user && a != auth_id,
        Operation::Answer { auth_id: a, .. } => !(st.sessions.contains_key(a) && st.sessions[a]
            == user),
    }
}

/// Every operation of `ops`, in the state it meets, is for another user.
pub open spec fn all_leave_alone(
    st: AuthState,
    user: Seq<char>,
    auth_id: Seq<char>,
    ops: Seq<Operation>,
) -> bool
    decreases ops.len(),
{
    ops.len() == 0 || (leaves_alone(st, user, auth_id, ops[0]) && all_leave_alone(
        apply(st, ops[0]),
        user,
        auth_id,
        ops.subrange(1, ops.len() as int),
    ))
}

/// Operations for other users keep `user`'s credential, the parameters, and
/// `auth_id` pointing at `user`.
proof fn lemma_others_keep(st: AuthState, user: Seq<char>, auth_id: Seq<char>, ops: Seq<Operation>)
    requires
        st.users.contains_key(user),
        all_leave_alone(st, user, auth_id, ops),
    ensures
        apply_all(st, ops).users.contains_key(user),
        apply_all(st, ops).users[user] == st.users[user],
        apply_all(st, ops).g == st.g,
        apply_all(st, ops).h == st.h,
        apply_all(st, ops).p == st.p,
        st.sessions.contains_key(auth_id) && st.sessions[auth_id] == user ==> apply_all(
            st,
            ops,
        ).sessions.contains_key(auth_id) && apply_all(st, ops).sessions[auth_id] == user,
    decreases ops.len(),
{
    if ops.len() > 0 {
        let next = apply(st, ops[0]);
        assert(next.users.contains_key(user) && next.users[user] == st.users[user]);
        assert(st.sessions.contains_key(auth_id) && st.sessions[auth_id] == user ==> next.sessions.contains_key(auth_id)
            && next.sessions[auth_id] == user);
        lemma_others_keep(next, user, auth_id, ops.subrange(1, ops.len() as int));
    }
}

/// Interleaved users do not disturb each other: a registered user who is
/// challenged for commitments `(g^k, h^k)`, with any calls for other users
/// before and after (other identifiers, no answer under this user's
/// identifiers), still has exactly the credential the challenge left; the
/// honest answer `solve(x, k, c, q)` is then accepted, and accepting it
/// changes no other user's credential.
pub proof fn lemma_interleaved_users(
    st: AuthState,
    user: Seq<char>,
    before: Seq<Operation>,
    after: Seq<Operation>,
    q: nat,
    x: nat,
    k: nat,
    c: nat,
    auth_id: Seq<char>,
    session_id: Seq<char>,
)
    requires
        st.p > 1,
        q > 0,
        pow(st.g as int, q) % (st.p as int) == 1,
        pow(st.h as int, q) % (st.p as int) == 1,
        st.users.contains_key(user),
        st.users[user].y1 == mod_pow_spec(st.g, x, st.p),
        st.users[user].y2 == mod_pow_spec(st.h, x, st.p),
        all_leave_alone(st, user, auth_id, before),
        all_leave_alone(
            challenged(
                apply_all(st, before),
                user,
                mod_pow_spec(st.g, k, st.p),
                mod_pow_spec(st.h, k, st.p),
                auth_id,
                c,
            ),
            user,
            auth_id,
            after,
        ),
    ensures
        ({
            let mid = challenged(
                apply_all(st, before),
                user,
                mod_pow_spec(st.g, k, st.p),
                mod_pow_spec(st.h, k, st.p),
                auth_id,
                c,
            );
            let end = apply_all(mid, after);
            let done = apply(
                end,
                Operation::Answer { auth_id, s: solve_spec(x, k, c, q), session_id },
            );
            &&& end.users[user] == mid.users[user]
            &&& answer_error(end, auth_id, solve_spec(x, k, c, q)) is None
            &&& done.users[user].session_id == session_id
            &&& forall|v: Seq<char>|
                v != user && end.users.contains_key(v) ==> #[trigger] done.users[v] == end.users[v]
        }),
{
    let pre = apply_all(st, before);
    lemma_others_keep(st, user, auth_id, before);
    let mid = challenged(
        pre,
        user,
        mod_pow_spec(st.g, k, st.p),
        mod_pow_spec(st.h, k, st.p),
        auth_id,
        c,
    );
    assert(mid.users.contains_key(user));
    assert(mid.sessions.contains_key(auth_id) && mid.sessions[auth_id] == user);
    lemma_others_keep(mid, user, auth_id, after);
    lemma_completeness(st.g, st.h, st.p, q, x, k, c);
}

} // verus!
