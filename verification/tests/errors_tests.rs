use rts::errors::{ResponseError, ServerError};

#[test]
fn test_display_no_panic() {
    let err = ServerError::InternalError("test error".into());
    let msg = err.to_display_string();
    assert_eq!(msg, "ServerError: Internal error: test error");

    let err = ServerError::InvalidJson("bad json".into());
    let msg = err.to_display_string();
    assert_eq!(msg, "ServerError: Invalid JSON: bad json");

    let err = ServerError::InvalidParams("invalid".into());
    let msg = err.to_display_string();
    assert_eq!(msg, "ServerError: Invalid params: invalid");
}

#[test]
fn response_parts_of_each_error() {
    let (status, body) = ServerError::InvalidJson("x".into()).response_parts();
    assert_eq!(status, 400);
    assert_eq!(body, ResponseError { code: "INVALID_JSON".into(), message: "x".into() });
    let (status, body) = ServerError::InternalError("y".into()).response_parts();
    assert_eq!(status, 500);
    assert_eq!(body, ResponseError { code: "INTERNAL_ERROR".into(), message: "y".into() });
    let (status, body) = ServerError::InvalidParams("z".into()).response_parts();
    assert_eq!(status, 400);
    assert_eq!(body, ResponseError { code: "INVALID_PARAMS".into(), message: "z".into() });
}

#[test]
fn message_of_error() {
    assert_eq!(ServerError::InvalidParams("m".into()).message(), "m");
    assert_eq!(ServerError::InternalError("n".into()).status_code(), 500);
}
