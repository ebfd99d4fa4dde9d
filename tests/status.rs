use opcua_transport::status::StatusCode;

#[test]
fn status_codes_and_severity() {
    assert_eq!(StatusCode::Good.code(), 0);
    assert_eq!(StatusCode::BadTimeout.code(), 0x800A_0000);
    assert_eq!(StatusCode::BadTooManyPublishRequests.code(), 0x8078_0000);
    assert_eq!(StatusCode::BadNoSubscription.code(), 0x8079_0000);
    assert_eq!(StatusCode::BadConnectionClosed.code(), 0x80AE_0000);
    assert_eq!(StatusCode::Other(0x1234).code(), 0x1234);
    assert!(StatusCode::Good.is_good());
    assert!(StatusCode::Other(0x0012_0000).is_good());
    assert!(!StatusCode::Other(0x4000_0000).is_good());
    assert!(!StatusCode::Other(0x4000_0000).is_bad());
    assert!(StatusCode::BadUnexpectedError.is_bad());
    assert!(!StatusCode::BadInvalidState.is_good());
}
