//! The session lifecycle manager.
//!
//! The three operations — open, close, read — are each split into a pure
//! decision function over the value fetched from the store and a manager
//! method that runs the decision against the store model.  A deployment
//! whose store lives elsewhere performs the fetches and writes itself and
//! calls the decision functions between them; the manager methods show,
//! against the in-memory store, that the composed operations satisfy the
//! per-session state machine.

use vstd::prelude::*;
use crate::codec::{decode_session, encode_session, spec_decode};
use crate::errors::ConveyError;
use crate::session::{
    res_view, spec_redacted, spec_valid_request, try_new_post, OpenSessionReq, OpenSessionReqView,
    SessionInfos, SessionInfosView,
};
use crate::store::SessionStore;

verus! {

/// The three logical operations a request context can ask of the manager.
pub enum SessionMsg {
    OpenSession(OpenSessionReq),
    CloseSession { id: String, revocation_token: String },
    GetSessionInfos(String),
}

/// What opening a session does, as a relation between the session maps
/// before and after the operation and its result: an already-open key is
/// refused as a conflict with no effect; otherwise the request is validated
/// and the freshly built record is added under its key.
pub open spec fn open_transition(
    pre: Map<Seq<char>, SessionInfosView>,
    post: Map<Seq<char>, SessionInfosView>,
    req: OpenSessionReqView,
    r: Result<SessionInfosView, ConveyError>,
) -> bool {
    if pre.contains_key(req.key) {
        post == pre && (r matches Err(e) && e matches ConveyError::BadRequest(m) && m@
            == "This session is already open."@)
    } else {
        &&& try_new_post(req.key, req.host_id, req.magnet_link, r)
        &&& match r {
            Ok(v) => post == pre.insert(req.key, v),
            Err(_) => post == pre,
        }
    }
}

/// What closing a session does: a missing key is not found; a token other
/// than the stored one is unauthorized and changes nothing; the exact token
/// removes the record and returns it in full as confirmation.
pub open spec fn close_transition(
    pre: Map<Seq<char>, SessionInfosView>,
    post: Map<Seq<char>, SessionInfosView>,
    id: Seq<char>,
    token: Seq<char>,
    r: Result<SessionInfosView, ConveyError>,
) -> bool {
    if !pre.contains_key(id) {
        post == pre && (r matches Err(e) && e matches ConveyError::NotFound())
    } else if token != pre[id].revocation_token {
        post == pre && (r matches Err(e) && e matches ConveyError::UnauthorizedError())
    } else {
        post == pre.remove(id) && (r matches Ok(v) && v == pre[id])
    }
}

/// What reading a session returns: the stored record with the revocation
/// token blanked, or not found.  A read never changes the map.
pub open spec fn retrieve_transition(
    m: Map<Seq<char>, SessionInfosView>,
    id: Seq<char>,
    r: Result<SessionInfosView, ConveyError>,
) -> bool {
    if m.contains_key(id) {
        r matches Ok(v) && v == spec_redacted(m[id])
    } else {
        r matches Err(e) && e matches ConveyError::NotFound()
    }
}

/// Decides an open request, given whether its key is already present:
/// conflict takes precedence, then validation, then the record is built.
/// An `Ok` result instructs the caller to persist the returned record under
/// the request's key.
pub fn decide_open_session(key_exists: bool, req: OpenSessionReq) -> (r: Result<
    SessionInfos,
    ConveyError,
>)
    ensures
        key_exists ==> (r matches Err(e) && e matches ConveyError::BadRequest(m) && m@
            == "This session is already open."@),
        !key_exists ==> try_new_post(req@.key, req@.host_id, req@.magnet_link, res_view(r)),
{
    if key_exists {
        return Err(ConveyError::BadRequest(String::from_str("This session is already open.")));
    }
    SessionInfos::try_from_req(req)
}

/// Decides a close request, given the payload fetched for its key: a
/// missing payload is not found, an undecodable one is corrupt, a token
/// mismatch is unauthorized; only the exact stored token succeeds.  An `Ok`
/// result instructs the caller to delete the record, and returns it in full.
pub fn decide_close_session(stored: Option<String>, token: &String) -> (r: Result<
    SessionInfos,
    ConveyError,
>)
    ensures
        match stored {
            None => r matches Err(e) && e matches ConveyError::NotFound(),
            Some(s) => match spec_decode(s@) {
                None => r matches Err(e) && e matches ConveyError::SerializationError,
                Some(v) => if token@ == v.revocation_token {
                    r matches Ok(rec) && rec@ == v
                } else {
                    r matches Err(e) && e matches ConveyError::UnauthorizedError()
                },
            },
        },
{
    let raw = match stored {
        None => {
            return Err(ConveyError::NotFound());
        },
        Some(raw) => raw,
    };
    let session = match decode_session(raw.as_str()) {
        Err(e) => {
            return Err(e);
        },
        Ok(session) => session,
    };
    if session.revocation_token == *token {
        Ok(session)
    } else {
        Err(ConveyError::UnauthorizedError())
    }
}

/// Decides a read, given the payload fetched for its key: a missing payload
/// is not found, an undecodable one is corrupt; otherwise the record is
/// returned with its revocation token blanked.
pub fn decide_retrieve_session(stored: Option<String>) -> (r: Result<SessionInfos, ConveyError>)
    ensures
        match stored {
            None => r matches Err(e) && e matches ConveyError::NotFound(),
            Some(s) => match spec_decode(s@) {
                None => r matches Err(e) && e matches ConveyError::SerializationError,
                Some(v) => r matches Ok(rec) && rec@ == spec_redacted(v),
            },
        },
{
    match stored {
        None => Err(ConveyError::NotFound()),
        Some(raw) => match decode_session(raw.as_str()) {
            Err(e) => Err(e),
            Ok(mut session) => {
                session.redact();
                Ok(session)
            },
        },
    }
}

/// The session lifecycle manager: the single owner of the store handle.
/// Its view is the map from open session keys to their records.
pub struct SessionManager {
    store: SessionStore,
}

impl View for SessionManager {
    type V = Map<Seq<char>, SessionInfosView>;

    closed spec fn view(&self) -> Map<Seq<char>, SessionInfosView> {
        Map::new(
            |k: Seq<char>| self.store@.contains_key(k),
            |k: Seq<char>| spec_decode(self.store@[k]).unwrap(),
        )
    }
}

impl SessionManager {
    /// A well-formed manager: the store is well-formed and every stored
    /// payload decodes to a record filed under its own key.
    pub closed spec fn wf(&self) -> bool {
        &&& self.store.wf()
        &&& forall|k: Seq<char>| #[trigger] self.store@.contains_key(k) ==> {
            &&& spec_decode(self.store@[k]) is Some
            &&& spec_decode(self.store@[k]).unwrap().key == k
        }
    }

    /// A manager over an empty store: no session is open.
    pub fn new() -> (m: Self)
        ensures
            m.wf(),
            m@ == Map::<Seq<char>, SessionInfosView>::empty(),
    {
        let m = SessionManager { store: SessionStore::new() };
        proof {
            assert(m@ =~= Map::<Seq<char>, SessionInfosView>::empty());
        }
        m
    }

    /// Opens a session: fails on a key already open or a request that does
    /// not validate, with no effect; otherwise persists a fresh record and
    /// returns it in full — the caller's only chance to learn the token.
    pub fn open_session(&mut self, req: OpenSessionReq) -> (r: Result<SessionInfos, ConveyError>)
        requires
            old(self).wf(),
        ensures
            final(self).wf(),
            open_transition(old(self)@, final(self)@, req@, res_view(r)),
    {
        let key = req.key.clone();
        let key_exists = self.store.exists_key(&key);
        let infos = match decide_open_session(key_exists, req) {
            Err(e) => {
                return Err(e);
            },
            Ok(infos) => infos,
        };
        let encoded = encode_session(&infos);
        self.store.set(infos.key.clone(), encoded);
        proof {
            assert(self@ =~= old(self)@.insert(infos@.key, infos@));
        }
        Ok(infos)
    }

    /// Reads a session's sanitized metadata: every field as stored, except
    /// the revocation token, which is blanked.  Never changes any session.
    pub fn retrieve_session(&self, id: &String) -> (r: Result<SessionInfos, ConveyError>)
        requires
            self.wf(),
        ensures
            retrieve_transition(self@, id@, res_view(r)),
    {
        let stored = self.store.get(id);
        decide_retrieve_session(stored)
    }

    /// Closes a session: only the exact revocation token issued at creation
    /// deletes the record; any other attempt leaves it untouched.
    pub fn close_session(&mut self, id: &String, token: &String) -> (r: Result<
        SessionInfos,
        ConveyError,
    >)
        requires
            old(self).wf(),
        ensures
            final(self).wf(),
            close_transition(old(self)@, final(self)@, id@, token@, res_view(r)),
    {
        let stored = self.store.get(id);
        let session = match decide_close_session(stored, token) {
            Err(e) => {
                return Err(e);
            },
            Ok(session) => session,
        };
        self.store.delete(id);
        proof {
            assert(self@ =~= old(self)@.remove(id@));
        }
        Ok(session)
    }

    /// Dispatches one logical operation to the matching handler.
    pub fn handle(&mut self, msg: SessionMsg) -> (r: Result<SessionInfos, ConveyError>)
        requires
            old(self).wf(),
        ensures
            final(self).wf(),
            match msg {
                SessionMsg::OpenSession(req) => open_transition(
                    old(self)@,
                    final(self)@,
                    req@,
                    res_view(r),
                ),
                SessionMsg::CloseSession { id, revocation_token } => close_transition(
                    old(self)@,
                    final(self)@,
                    id@,
                    revocation_token@,
                    res_view(r),
                ),
                SessionMsg::GetSessionInfos(id) => final(self)@ == old(self)@
                    && retrieve_transition(old(self)@, id@, res_view(r)),
            },
    {
        match msg {
            SessionMsg::OpenSession(req) => self.open_session(req),
            SessionMsg::CloseSession { id, revocation_token } => self.close_session(
                &id,
                &revocation_token,
            ),
            SessionMsg::GetSessionInfos(id) => self.retrieve_session(&id),
        }
    }
}

/// Some manager operation ran between the two maps: an open, a close, or a
/// read (which never changes the map).
pub open spec fn step(
    pre: Map<Seq<char>, SessionInfosView>,
    post: Map<Seq<char>, SessionInfosView>,
) -> bool {
    ||| exists|req: OpenSessionReqView, r: Result<SessionInfosView, ConveyError>|
        open_transition(pre, post, req, r)
    ||| exists|id: Seq<char>, token: Seq<char>, r: Result<SessionInfosView, ConveyError>|
        close_transition(pre, post, id, token, r)
    ||| post == pre
}

/// The step from `pre` to `post` was a close of `k` that succeeded.
pub open spec fn closes_key(
    pre: Map<Seq<char>, SessionInfosView>,
    post: Map<Seq<char>, SessionInfosView>,
    k: Seq<char>,
) -> bool {
    exists|token: Seq<char>, r: Result<SessionInfosView, ConveyError>|
        close_transition(pre, post, k, token, r) && r is Ok
}

/// Any operation other than a successful close of `k` keeps `k` open.
proof fn lemma_step_preserves_open_key(
    pre: Map<Seq<char>, SessionInfosView>,
    post: Map<Seq<char>, SessionInfosView>,
    k: Seq<char>,
)
    requires
        step(pre, post),
        pre.contains_key(k),
        !closes_key(pre, post, k),
    ensures
        post.contains_key(k),
{
    if exists|req: OpenSessionReqView, r: Result<SessionInfosView, ConveyError>|
        open_transition(pre, post, req, r) {
        let (req, r) = choose|req: OpenSessionReqView, r: Result<SessionInfosView, ConveyError>|
            open_transition(pre, post, req, r);
        match r {
            Ok(v) => {
                assert(post == pre.insert(req.key, v));
            },
            Err(_) => {
                assert(post == pre);
            },
        }
    } else if exists|id: Seq<char>, token: Seq<char>, r: Result<SessionInfosView, ConveyError>|
        close_transition(pre, post, id, token, r) {
        let (id, token, r) = choose|
            id: Seq<char>,
            token: Seq<char>,
            r: Result<SessionInfosView, ConveyError>,
        | close_transition(pre, post, id, token, r);
        if r is Ok {
            assert(pre.contains_key(id) && post == pre.remove(id));
            assert(id != k) by {
                if id == k {
                    assert(close_transition(pre, post, k, token, r) && r is Ok);
                }
            }
        } else {
            assert(post == pre);
        }
    }
}

/// Uniqueness: once a session is open under a key, it stays open across any
/// run of operations that does not close it with its own token, and any
/// further open for that key is refused as a conflict, with no effect.
/// `states` are the session maps after each operation, the first of them
/// one where the key is open (as it is right after a successful open).
pub proof fn lemma_session_uniqueness(
    states: Seq<Map<Seq<char>, SessionInfosView>>,
    k: Seq<char>,
    req: OpenSessionReqView,
    post: Map<Seq<char>, SessionInfosView>,
    r: Result<SessionInfosView, ConveyError>,
)
    requires
        states.len() > 0,
        states[0].contains_key(k),
        forall|i: int| #![trigger states[i]] 0 <= i < states.len() - 1 ==> step(
            states[i],
            states[i + 1],
        ) && !closes_key(states[i], states[i + 1], k),
        req.key == k,
        open_transition(states.last(), post, req, r),
    ensures
        r matches Err(e) && e matches ConveyError::BadRequest(m) && m@
            == "This session is already open."@,
        post == states.last(),
    decreases states.len(),
{
    if states.len() == 1 {
        assert(states.last().contains_key(k));
    } else {
        let rest = states.drop_first();
        assert(step(states[0], states[1]) && !closes_key(states[0], states[1], k));
        lemma_step_preserves_open_key(states[0], states[1], k);
        assert(rest[0].contains_key(k));
        assert forall|i: int| #![trigger rest[i]] 0 <= i < rest.len() - 1 implies step(
            rest[i],
            rest[i + 1],
        ) && !closes_key(rest[i], rest[i + 1], k) by {
            assert(rest[i] == states[i + 1] && rest[i + 1] == states[i + 2]);
            assert(step(states[i + 1], states[i + 2]) && !closes_key(
                states[i + 1],
                states[i + 2],
                k,
            ));
        }
        assert(rest.last() == states.last());
        lemma_session_uniqueness(rest, k, req, post, r);
    }
}

/// Authorization correctness: a close succeeds exactly when its key is open
/// and the supplied token is the stored one; it then removes the record and
/// returns it in full.  Any other close changes nothing, so the record stays
/// retrievable unchanged.
pub proof fn lemma_close_authorization(
    pre: Map<Seq<char>, SessionInfosView>,
    post: Map<Seq<char>, SessionInfosView>,
    id: Seq<char>,
    token: Seq<char>,
    r: Result<SessionInfosView, ConveyError>,
)
    requires
        close_transition(pre, post, id, token, r),
    ensures
        (r is Ok) <==> (pre.contains_key(id) && token == pre[id].revocation_token),
        r is Ok ==> (r matches Ok(v) && v == pre[id] && post == pre.remove(id)),
        !(r is Ok) ==> post == pre,
        pre.contains_key(id) && token != pre[id].revocation_token ==> (r matches Err(e)
            && e matches ConveyError::UnauthorizedError()),
{
}

/// Read redaction: a read of an open session returns every field of the
/// stored record unchanged, except the revocation token, which is always
/// the empty string.
pub proof fn lemma_read_redaction(
    m: Map<Seq<char>, SessionInfosView>,
    id: Seq<char>,
    r: Result<SessionInfosView, ConveyError>,
)
    requires
        retrieve_transition(m, id, r),
        m.contains_key(id),
    ensures
        r matches Ok(v) && v.key == m[id].key && v.host_id == m[id].host_id && v.magnet_link
            == m[id].magnet_link && v.opened_at == m[id].opened_at && v.revocation_token
            == Seq::<char>::empty(),
{
}

/// No terminal state: once a close of a key has succeeded, an open of the
/// same key with a well-formed request succeeds again, filing a fresh
/// record under it.
pub proof fn lemma_reopen_after_close(
    pre: Map<Seq<char>, SessionInfosView>,
    mid: Map<Seq<char>, SessionInfosView>,
    k: Seq<char>,
    token: Seq<char>,
    rc: Result<SessionInfosView, ConveyError>,
    req: OpenSessionReqView,
    post: Map<Seq<char>, SessionInfosView>,
    r: Result<SessionInfosView, ConveyError>,
)
    requires
        close_transition(pre, mid, k, token, rc),
        rc is Ok,
        req.key == k,
        spec_valid_request(req),
        open_transition(mid, post, req, r),
    ensures
        r matches Ok(v) && v.key == k && v.host_id == req.host_id && v.magnet_link
            == req.magnet_link && v.revocation_token.len() == 44,
        post == mid.insert(k, r.unwrap()),
{
    assert(mid == pre.remove(k));
    assert(!mid.contains_key(k));
}

/// Validation gate: an open whose magnet link fails the prefix check never
/// changes the session map; unless the key was already open (a conflict,
/// also with no effect), it is rejected with the exact invalid-input
/// message.
pub proof fn lemma_validation_gate(
    pre: Map<Seq<char>, SessionInfosView>,
    post: Map<Seq<char>, SessionInfosView>,
    req: OpenSessionReqView,
    r: Result<SessionInfosView, ConveyError>,
)
    requires
        open_transition(pre, post, req, r),
        !crate::utils::spec_is_magnet_link_valid(req.magnet_link),
    ensures
        post == pre,
        r is Err,
        !pre.contains_key(req.key) ==> (r matches Err(e) && e matches ConveyError::BadRequest(m)
            && m@ == "Invalid magnet link."@),
{
}

} // verus!
