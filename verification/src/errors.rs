use vstd::prelude::*;

verus! {

/// The error kinds surfaced by the session core.  The transport layer maps
/// each kind to an HTTP status code and serializes the message as the body.
#[derive(Debug)]
pub enum ConveyError {
    /// The backing store was unreachable or reported a fault.
    CacheError,
    /// A stored payload could not be decoded.
    SerializationError,
    /// The supplied revocation token does not authorize the operation.
    UnauthorizedError(),
    /// The requested session does not exist.
    NotFound(),
    /// Internal message passing between request contexts failed.
    MailboxError,
    /// The request was rejected: malformed input or a conflicting session.
    BadRequest(String),
    /// Secure token generation failed.
    InternalError,
}

impl ConveyError {
    /// The HTTP status code that each error kind maps to.
    pub open spec fn spec_status_code(&self) -> u16 {
        match *self {
            ConveyError::CacheError => 500,
            ConveyError::SerializationError => 500,
            ConveyError::MailboxError => 500,
            ConveyError::InternalError => 500,
            ConveyError::UnauthorizedError() => 401,
            ConveyError::BadRequest(_) => 400,
            ConveyError::NotFound() => 404,
        }
    }

    /// Maps the error kind to its HTTP status code: store, serialization and
    /// internal faults are server errors; a bad or conflicting request is 400
    /// (a conflicting open is reported as 400, not 409, on purpose); an
    /// authorization failure is 401; a missing session is 404.
    pub fn status_code(&self) -> (code: u16)
        ensures
            code == self.spec_status_code(),
    {
        match self {
            ConveyError::CacheError => 500,
            ConveyError::SerializationError => 500,
            ConveyError::MailboxError => 500,
            ConveyError::InternalError => 500,
            ConveyError::UnauthorizedError() => 401,
            ConveyError::BadRequest(_) => 400,
            ConveyError::NotFound() => 404,
        }
    }

    /// The human-readable message for each error kind.
    pub open spec fn spec_message(&self) -> Seq<char> {
        match *self {
            ConveyError::CacheError => "Temporary error while storing/accessing data from cache."@,
            ConveyError::SerializationError => "Serialization error"@,
            ConveyError::UnauthorizedError() => "You don't have access over this resource."@,
            ConveyError::NotFound() => "The requested resource cannot be found."@,
            ConveyError::MailboxError => "Internal communication error"@,
            ConveyError::BadRequest(ref m) => m@,
            ConveyError::InternalError => "Secure token generation failed."@,
        }
    }

    /// Returns the message text; a `BadRequest` carries its own message.
    pub fn message(&self) -> (msg: String)
        ensures
            msg@ == self.spec_message(),
    {
        match self {
            ConveyError::CacheError => String::from_str(
                "Temporary error while storing/accessing data from cache.",
            ),
            ConveyError::SerializationError => String::from_str("Serialization error"),
            ConveyError::UnauthorizedError() => String::from_str(
                "You don't have access over this resource.",
            ),
            ConveyError::NotFound() => String::from_str(
                "The requested resource cannot be found.",
            ),
            ConveyError::MailboxError => String::from_str("Internal communication error"),
            ConveyError::BadRequest(m) => m.clone(),
            ConveyError::InternalError => String::from_str("Secure token generation failed."),
        }
    }
}

} // verus!
