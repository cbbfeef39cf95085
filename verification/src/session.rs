use vstd::prelude::*;
use crate::errors::ConveyError;
use crate::utils::{gen_token, is_magnet_link_valid, spec_is_magnet_link_valid};

verus! {

/// Transient input for opening a session; consumed to produce a
/// `SessionInfos` record and never persisted as-is.
pub struct OpenSessionReq {
    pub key: String,
    pub host_id: String,
    pub magnet_link: String,
}

/// The mathematical value of an `OpenSessionReq`.
pub ghost struct OpenSessionReqView {
    pub key: Seq<char>,
    pub host_id: Seq<char>,
    pub magnet_link: Seq<char>,
}

impl View for OpenSessionReq {
    type V = OpenSessionReqView;

    open spec fn view(&self) -> OpenSessionReqView {
        OpenSessionReqView { key: self.key@, host_id: self.host_id@, magnet_link: self.magnet_link@ }
    }
}

/// The persisted session record.  All fields are immutable after creation;
/// only the record's existence changes over its lifetime.  `opened_at` is
/// the creation time in milliseconds since the Unix epoch.
pub struct SessionInfos {
    pub key: String,
    pub host_id: String,
    pub magnet_link: String,
    pub opened_at: u64,
    pub revocation_token: String,
}

/// The mathematical value of a `SessionInfos` record.
pub ghost struct SessionInfosView {
    pub key: Seq<char>,
    pub host_id: Seq<char>,
    pub magnet_link: Seq<char>,
    pub opened_at: u64,
    pub revocation_token: Seq<char>,
}

impl View for SessionInfos {
    type V = SessionInfosView;

    open spec fn view(&self) -> SessionInfosView {
        SessionInfosView {
            key: self.key@,
            host_id: self.host_id@,
            magnet_link: self.magnet_link@,
            opened_at: self.opened_at,
            revocation_token: self.revocation_token@,
        }
    }
}

/// A request is well-formed when its identifiers are non-empty and its
/// magnet link passes the structural prefix check.
pub open spec fn spec_valid_request(req: OpenSessionReqView) -> bool {
    spec_is_magnet_link_valid(req.magnet_link) && req.key.len() > 0 && req.host_id.len() > 0
}

/// The record as a read returns it: every field as stored, except the
/// revocation token, which is blanked.
pub open spec fn spec_redacted(v: SessionInfosView) -> SessionInfosView {
    SessionInfosView { revocation_token: Seq::<char>::empty(), ..v }
}

/// What `SessionInfos::try_new` returns for the given inputs: a malformed
/// magnet link or an empty identifier is rejected with the exact message,
/// and otherwise the record is built, carrying the inputs and a fresh
/// 44-character token.
pub open spec fn try_new_post(
    key: Seq<char>,
    host_id: Seq<char>,
    magnet_link: Seq<char>,
    r: Result<SessionInfosView, ConveyError>,
) -> bool {
    if !spec_is_magnet_link_valid(magnet_link) {
        r matches Err(e) && e matches ConveyError::BadRequest(m) && m@ == "Invalid magnet link."@
    } else if key.len() == 0 || host_id.len() == 0 {
        r matches Err(e) && e matches ConveyError::BadRequest(m) && m@ == "Bad ids."@
    } else {
        r matches Ok(v) && v.key == key && v.host_id == host_id && v.magnet_link == magnet_link
            && v.revocation_token.len() == 44
    }
}

impl SessionInfos {
    /// Validates the inputs and builds the record: the magnet link must pass
    /// the prefix check and the identifiers must be non-empty; the record is
    /// stamped with the current time and a freshly generated secret token.
    pub fn try_new(key: String, host_id: String, magnet_link: String) -> (r: Result<
        Self,
        ConveyError,
    >)
        ensures
            try_new_post(key@, host_id@, magnet_link@, res_view(r)),
    {
        if !is_magnet_link_valid(magnet_link.as_str()) {
            return Err(ConveyError::BadRequest(String::from_str("Invalid magnet link.")));
        }
        if key.as_str().is_empty() || host_id.as_str().is_empty() {
            return Err(ConveyError::BadRequest(String::from_str("Bad ids.")));
        }
        let revocation_token = match gen_token() {
            Ok(t) => t,
            Err(e) => {
                return Err(e);
            },
        };
        Ok(SessionInfos {
            key,
            host_id,
            magnet_link,
            opened_at: crate::utils::current_unix_millis(),
            revocation_token,
        })
    }

    /// Builds a record from a request, consuming it; same contract as
    /// `try_new`.
    pub fn try_from_req(req: OpenSessionReq) -> (r: Result<Self, ConveyError>)
        ensures
            try_new_post(req@.key, req@.host_id, req@.magnet_link, res_view(r)),
    {
        Self::try_new(req.key, req.host_id, req.magnet_link)
    }

    /// Blanks the revocation token, as every read of a record must before
    /// returning it.
    pub fn redact(&mut self)
        ensures
            final(self)@ == spec_redacted(old(self)@),
    {
        self.revocation_token = String::new();
        proof {
            assert(self@.revocation_token =~= Seq::<char>::empty());
        }
    }
}

/// The mathematical value of an operation result.
pub open spec fn res_view(r: Result<SessionInfos, ConveyError>) -> Result<
    SessionInfosView,
    ConveyError,
> {
    match r {
        Ok(s) => Ok(s@),
        Err(e) => Err(e),
    }
}

} // verus!
