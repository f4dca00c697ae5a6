use minivault::{MiniVault, VaultError};

#[test]
fn new_strips_trailing_slashes_once() {
    let client = MiniVault::new(b"http://localhost:8080///".to_vec(), None);
    assert_eq!(client.base_url(), b"http://localhost:8080");
    let untouched = MiniVault::new(b"http://localhost:8080".to_vec(), None);
    assert_eq!(untouched.base_url(), b"http://localhost:8080");
}

#[test]
fn new_keeps_the_credential() {
    let client = MiniVault::new(b"http://h".to_vec(), Some(b"SECRET-REDACTED".to_vec()));
    assert_eq!(client.api_key(), &Some(b"SECRET-REDACTED".to_vec()));
    let open_client = MiniVault::new(b"http://h".to_vec(), None);
    assert_eq!(open_client.api_key(), &None);
}

#[test]
fn request_url_joins_base_and_key() {
    let client = MiniVault::new(b"http://h:1/".to_vec(), None);
    assert_eq!(client.request_url(b"mykey"), b"http://h:1/mykey".to_vec());
}

#[test]
fn health_url_appends_the_health_path() {
    let client = MiniVault::new(b"http://h:1".to_vec(), None);
    assert_eq!(client.health_url(), b"http://h:1/health".to_vec());
}

#[test]
fn get_maps_200_to_present() {
    let client = MiniVault::new(b"http://h".to_vec(), None);
    assert_eq!(client.get(200, b"body".to_vec()), Ok(Some(b"body".to_vec())));
}

#[test]
fn get_round_trips_a_zero_length_value() {
    // Over HTTP an empty body on 200 is a present, empty value.
    let client = MiniVault::new(b"http://h".to_vec(), None);
    assert_eq!(client.get(200, Vec::new()), Ok(Some(Vec::new())));
}

#[test]
fn get_maps_404_to_absent_not_error() {
    let client = MiniVault::new(b"http://h".to_vec(), None);
    assert_eq!(client.get(404, Vec::new()), Ok(None));
}

#[test]
fn get_surfaces_other_statuses() {
    let client = MiniVault::new(b"http://h".to_vec(), None);
    assert_eq!(client.get(500, Vec::new()), Err(VaultError::Server(500)));
    assert_eq!(client.get(301, Vec::new()), Err(VaultError::Server(301)));
}

#[test]
fn set_accepts_any_2xx() {
    let client = MiniVault::new(b"http://h".to_vec(), None);
    assert_eq!(client.set(200), Ok(()));
    assert_eq!(client.set(204), Ok(()));
    assert_eq!(client.set(403), Err(VaultError::Server(403)));
    assert_eq!(client.set(199), Err(VaultError::Server(199)));
    assert_eq!(client.set(300), Err(VaultError::Server(300)));
}

#[test]
fn delete_follows_the_write_convention() {
    let client = MiniVault::new(b"http://h".to_vec(), None);
    assert_eq!(client.delete(204), Ok(()));
    assert_eq!(client.delete(500), Err(VaultError::Server(500)));
}

#[test]
fn http_key_exists_tracks_presence() {
    let client = MiniVault::new(b"http://h".to_vec(), None);
    assert_eq!(client.key_exists(200), Ok(true));
    assert_eq!(client.key_exists(404), Ok(false));
    assert_eq!(client.key_exists(503), Err(VaultError::Server(503)));
}

#[test]
fn health_returns_the_body_on_success() {
    let client = MiniVault::new(b"http://h".to_vec(), None);
    let body = br#"{"status":"healthy"}"#.to_vec();
    assert_eq!(client.health(200, body.clone()), Ok(body));
    assert_eq!(client.health(503, Vec::new()), Err(VaultError::Server(503)));
}

#[test]
fn mget_keeps_only_resolved_keys() {
    // One requested key was never set: it is absent from the result set,
    // not mapped to an error or an empty value.
    let client = MiniVault::new(b"http://h".to_vec(), None);
    let keys = vec![b"k1".to_vec(), b"k2".to_vec(), b"k3".to_vec()];
    let outcomes = vec![
        Ok(Some(b"v1".to_vec())),
        Ok(None),
        Ok(Some(b"v3".to_vec())),
    ];
    let results = client.mget(&keys, &outcomes);
    assert_eq!(
        results,
        vec![
            (b"k1".to_vec(), b"v1".to_vec()),
            (b"k3".to_vec(), b"v3".to_vec()),
        ]
    );
}

#[test]
fn mget_swallows_failed_members() {
    let client = MiniVault::new(b"http://h".to_vec(), None);
    let keys = vec![b"a".to_vec(), b"b".to_vec()];
    let outcomes = vec![Err(VaultError::Server(500)), Ok(Some(b"vb".to_vec()))];
    let results = client.mget(&keys, &outcomes);
    assert_eq!(results, vec![(b"b".to_vec(), b"vb".to_vec())]);
}

#[test]
fn mget_of_nothing_is_empty() {
    let client = MiniVault::new(b"http://h".to_vec(), None);
    assert_eq!(client.mget(&Vec::new(), &Vec::new()), Vec::new());
}

#[test]
fn mset_succeeds_only_when_every_write_did() {
    let client = MiniVault::new(b"http://h".to_vec(), None);
    assert_eq!(client.mset(&vec![Ok(()), Ok(())]), Ok(()));
    assert_eq!(client.mset(&Vec::new()), Ok(()));
}

#[test]
fn mset_surfaces_the_first_failed_write() {
    let client = MiniVault::new(b"http://h".to_vec(), None);
    let outcomes = vec![
        Ok(()),
        Err(VaultError::Server(500)),
        Err(VaultError::Server(404)),
    ];
    assert_eq!(client.mset(&outcomes), Err(VaultError::Server(500)));
}
