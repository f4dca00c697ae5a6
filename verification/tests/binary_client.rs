use minivault::frame::{TAG_AUTH, TAG_DELETE, TAG_GET, TAG_HEALTH, TAG_SET};
use minivault::{MiniVaultBinary, VaultError};

fn success_frame(payload: &[u8]) -> Vec<u8> {
    let mut frame = vec![0x00];
    frame.extend_from_slice(&(payload.len() as u32).to_le_bytes());
    frame.extend_from_slice(payload);
    frame
}

#[test]
fn new_records_address_and_timeout() {
    let client = MiniVaultBinary::new("localhost:7700".to_string(), None);
    assert_eq!(client.address(), "localhost:7700");
    assert_eq!(client.timeout_secs(), 5);
}

#[test]
fn plan_without_credential_sends_no_auth_frame() {
    let client = MiniVaultBinary::new("localhost:7700".to_string(), None);
    let plan = client.execute_operation(TAG_GET, b"k", None).unwrap();
    assert!(plan.auth_frame.is_none());
}

#[test]
fn plan_with_credential_sends_exactly_one_auth_frame_first() {
    let client =
        MiniVaultBinary::new("localhost:7700".to_string(), Some("SECRET-REDACTED".to_string()));
    let plan = client.execute_operation(TAG_GET, b"k", None).unwrap();
    let auth = plan.auth_frame.expect("credential configured, auth frame owed");
    let mut expected = vec![TAG_AUTH];
    expected.extend_from_slice(&(b"SECRET-REDACTED".len() as u16).to_le_bytes());
    expected.extend_from_slice(b"SECRET-REDACTED");
    assert_eq!(auth, expected);
    assert_eq!(plan.op_frame, vec![TAG_GET, 0x01, 0x00, b'k']);
}

#[test]
fn plan_get_frame_layout() {
    let client = MiniVaultBinary::new("localhost:7700".to_string(), None);
    let plan = client.execute_operation(TAG_GET, b"mykey", None).unwrap();
    let mut expected = vec![TAG_GET, 0x05, 0x00];
    expected.extend_from_slice(b"mykey");
    assert_eq!(plan.op_frame, expected);
}

#[test]
fn plan_delete_and_health_share_the_key_frame_shape() {
    let client = MiniVaultBinary::new("localhost:7700".to_string(), None);
    let del = client.execute_operation(TAG_DELETE, b"k", None).unwrap();
    assert_eq!(del.op_frame, vec![TAG_DELETE, 0x01, 0x00, b'k']);
    let health_key = MiniVaultBinary::health_key();
    assert_eq!(health_key, b"health".to_vec());
    let health = client.execute_operation(TAG_HEALTH, &health_key, None).unwrap();
    let mut expected = vec![TAG_HEALTH, 0x06, 0x00];
    expected.extend_from_slice(b"health");
    assert_eq!(health.op_frame, expected);
}

#[test]
fn plan_set_frame_layout() {
    let client = MiniVaultBinary::new("localhost:7700".to_string(), None);
    let plan = client.execute_operation(TAG_SET, b"k", Some(b"hello")).unwrap();
    let mut expected = vec![TAG_SET, 0x01, 0x00, b'k'];
    expected.extend_from_slice(&5u32.to_le_bytes());
    expected.push(0x00);
    expected.extend_from_slice(b"hello");
    assert_eq!(plan.op_frame, expected);
}

#[test]
fn set_without_value_is_an_argument_error() {
    let client = MiniVaultBinary::new("localhost:7700".to_string(), None);
    assert_eq!(
        client.execute_operation(TAG_SET, b"k", None).unwrap_err(),
        VaultError::Argument
    );
}

#[test]
fn unknown_operation_is_an_argument_error() {
    let client = MiniVaultBinary::new("localhost:7700".to_string(), None);
    assert_eq!(
        client.execute_operation(0x99, b"k", None).unwrap_err(),
        VaultError::Argument
    );
    // The authentication tag is not a caller operation either.
    assert_eq!(
        client.execute_operation(TAG_AUTH, b"k", None).unwrap_err(),
        VaultError::Argument
    );
}

#[test]
fn oversized_key_is_an_argument_error() {
    let client = MiniVaultBinary::new("localhost:7700".to_string(), None);
    let key = vec![b'x'; 0x10000];
    assert_eq!(
        client.execute_operation(TAG_GET, &key, None).unwrap_err(),
        VaultError::Argument
    );
}

#[test]
fn get_with_empty_payload_is_absent() {
    let client = MiniVaultBinary::new("localhost:7700".to_string(), None);
    assert_eq!(client.get(&success_frame(b"")), Ok(None));
}

#[test]
fn get_with_payload_is_present() {
    let client = MiniVaultBinary::new("localhost:7700".to_string(), None);
    assert_eq!(client.get(&success_frame(b"stored")), Ok(Some(b"stored".to_vec())));
}

#[test]
fn get_surfaces_server_status() {
    let client = MiniVaultBinary::new("localhost:7700".to_string(), None);
    let mut reply = vec![0x42];
    reply.extend_from_slice(&0u32.to_le_bytes());
    assert_eq!(client.get(&reply), Err(VaultError::Server(0x42)));
}

#[test]
fn get_on_truncated_delivery_is_a_transport_error() {
    let client = MiniVaultBinary::new("localhost:7700".to_string(), None);
    let mut reply = vec![0x00];
    reply.extend_from_slice(&100u32.to_le_bytes());
    reply.extend_from_slice(b"only a little");
    assert_eq!(client.get(&reply), Err(VaultError::Transport));
}

#[test]
fn set_and_delete_succeed_on_a_success_reply() {
    let client = MiniVaultBinary::new("localhost:7700".to_string(), None);
    assert_eq!(client.set(&success_frame(b"")), Ok(()));
    assert_eq!(client.delete(&success_frame(b"")), Ok(()));
}

#[test]
fn set_and_delete_surface_server_status() {
    let client = MiniVaultBinary::new("localhost:7700".to_string(), None);
    let mut reply = vec![0x05];
    reply.extend_from_slice(&0u32.to_le_bytes());
    assert_eq!(client.set(&reply), Err(VaultError::Server(0x05)));
    assert_eq!(client.delete(&reply), Err(VaultError::Server(0x05)));
}

#[test]
fn binary_key_exists_tracks_presence() {
    let client = MiniVaultBinary::new("localhost:7700".to_string(), None);
    assert_eq!(client.key_exists(&success_frame(b"")), Ok(false));
    assert_eq!(client.key_exists(&success_frame(b"v")), Ok(true));
}

#[test]
fn delete_then_get_yields_absent() {
    // The server deletes the key and later answers the Get with a
    // zero-length payload, the absent signal.
    let client = MiniVaultBinary::new("localhost:7700".to_string(), None);
    assert_eq!(client.delete(&success_frame(b"")), Ok(()));
    assert_eq!(client.get(&success_frame(b"")), Ok(None));
    assert_eq!(client.key_exists(&success_frame(b"")), Ok(false));
}

#[test]
fn set_then_get_round_trips_the_value() {
    let client = MiniVaultBinary::new("localhost:7700".to_string(), None);
    let value = b"\x00\x01\x02 arbitrary bytes \xFF";
    let plan = client.execute_operation(TAG_SET, b"k", Some(value)).unwrap();
    // The value bytes sit verbatim at the tail of the Set frame.
    let tail = &plan.op_frame[plan.op_frame.len() - value.len()..];
    assert_eq!(tail, value);
    // A faithful store later hands those bytes back; Get reads them.
    assert_eq!(client.get(&success_frame(value)), Ok(Some(value.to_vec())));
}

#[test]
fn health_returns_the_raw_payload() {
    let client = MiniVaultBinary::new("localhost:7700".to_string(), None);
    let body = br#"{"status":"ok"}"#;
    assert_eq!(client.health(&success_frame(body)), Ok(body.to_vec()));
}
