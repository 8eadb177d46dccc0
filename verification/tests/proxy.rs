use hftlive::proxy::validate_connect_response;

#[test]
fn accepts_successful_connect_response() {
    validate_connect_response(b"HTTP/1.1 200 Connection established\r\n\r\n").unwrap();
}

#[test]
fn rejects_failed_connect_response() {
    let error = validate_connect_response(b"HTTP/1.1 403 Forbidden\r\n\r\n").unwrap_err();
    assert!(error.message().contains("403 Forbidden"));
}
