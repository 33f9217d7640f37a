use scramjet::clock::{slot_update_action, split_endpoint, BackoffPolicy};
use scramjet::error::ScramjetError;
use scramjet::identity::ed25519_pkcs8;

#[test]
fn test_backoff_doubles_and_caps() {
    let mut p = BackoffPolicy::new(1000, 10000);
    assert_eq!(p.current_delay_ms(), 1000);
    p.advance();
    assert_eq!(p.current_delay_ms(), 2000);
    p.advance();
    assert_eq!(p.current_delay_ms(), 4000);
    p.advance();
    assert_eq!(p.current_delay_ms(), 8000);
    p.advance();
    assert_eq!(p.current_delay_ms(), 10000);
    p.advance();
    assert_eq!(p.current_delay_ms(), 10000);
    p.reset();
    assert_eq!(p.current_delay_ms(), 1000);
}

#[test]
fn test_slot_update_action_processed_only() {
    assert_eq!(slot_update_action(12345, 0), Some(12345));
    assert_eq!(slot_update_action(12345, 1), None);
    assert_eq!(slot_update_action(12345, 2), None);
    assert_eq!(slot_update_action(0, 0), Some(0));
}

#[test]
fn test_split_endpoint_extracts_token() {
    let url = b"https://grpc.example.com:443/secrettoken12345";
    let (endpoint, token) = split_endpoint(url).expect("well-formed url");
    assert_eq!(endpoint, b"https://grpc.example.com:443".to_vec());
    assert_eq!(token, Some(b"secrettoken12345".to_vec()));
}

#[test]
fn test_split_endpoint_short_path_passes_through() {
    let url = b"https://grpc.example.com:443/short";
    let (endpoint, token) = split_endpoint(url).expect("well-formed url");
    assert_eq!(endpoint, url.to_vec());
    assert!(token.is_none());
}

#[test]
fn test_split_endpoint_no_path() {
    let url = b"http://grpc.example.com:10000";
    let (endpoint, token) = split_endpoint(url).expect("well-formed url");
    assert_eq!(endpoint, url.to_vec());
    assert!(token.is_none());
}

#[test]
fn test_split_endpoint_no_scheme() {
    let url = b"grpc.example.com/secrettoken12345";
    let (endpoint, token) = split_endpoint(url).expect("no scheme means no token");
    assert_eq!(endpoint, url.to_vec());
    assert!(token.is_none());
}

#[test]
fn test_split_endpoint_missing_authority_rejected() {
    let url = b"https:///secrettoken12345";
    assert!(split_endpoint(url).is_none());
}

#[test]
fn test_ed25519_pkcs8_layout() {
    let mut secret = [0u8; 64];
    for (i, b) in secret.iter_mut().enumerate() {
        *b = i as u8;
    }
    let doc = ed25519_pkcs8(&secret);
    assert_eq!(doc.len(), 48);
    let header: [u8; 16] = [
        0x30, 0x2e, 0x02, 0x01, 0x00, 0x30, 0x05, 0x06, 0x03, 0x2b, 0x65, 0x70, 0x04, 0x22,
        0x04, 0x20,
    ];
    assert_eq!(&doc[..16], &header);
    assert_eq!(&doc[16..], &secret[..32]);
}

#[test]
fn test_error_messages() {
    assert_eq!(
        ScramjetError::ScheduleUnavailable.message(),
        "Leader schedule unavailable"
    );
    assert_eq!(
        ScramjetError::NoLeaderFound(77).message(),
        "No leader found for slot"
    );
    assert_eq!(ScramjetError::RpcError("boom".to_string()).message(), "boom");
    assert_eq!(
        ScramjetError::ConfigValidationError("bad".to_string()).message(),
        "bad"
    );
}
