use convey::errors::ConveyError;

#[test]
fn status_codes_follow_the_error_kind() {
    assert_eq!(ConveyError::CacheError.status_code(), 500);
    assert_eq!(ConveyError::SerializationError.status_code(), 500);
    assert_eq!(ConveyError::MailboxError.status_code(), 500);
    assert_eq!(ConveyError::InternalError.status_code(), 500);
    assert_eq!(ConveyError::UnauthorizedError().status_code(), 401);
    assert_eq!(ConveyError::NotFound().status_code(), 404);
    assert_eq!(ConveyError::BadRequest(String::from("oops")).status_code(), 400);
}

#[test]
fn messages_follow_the_error_kind() {
    assert_eq!(
        ConveyError::CacheError.message(),
        "Temporary error while storing/accessing data from cache."
    );
    assert_eq!(ConveyError::SerializationError.message(), "Serialization error");
    assert_eq!(
        ConveyError::UnauthorizedError().message(),
        "You don't have access over this resource."
    );
    assert_eq!(
        ConveyError::NotFound().message(),
        "The requested resource cannot be found."
    );
    assert_eq!(ConveyError::MailboxError.message(), "Internal communication error");
    assert_eq!(
        ConveyError::BadRequest(String::from("Invalid magnet link.")).message(),
        "Invalid magnet link."
    );
}
