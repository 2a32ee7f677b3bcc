use krb5_provision_keytab::credential_cache::{CredentialCache, Error, GetOrInsert, SecretRecord,
    SecretReference};

fn cache_ref() -> SecretReference {
    SecretReference { namespace: b"kerberos".to_vec(), name: b"creds".to_vec() }
}

fn empty_cache() -> CredentialCache {
    CredentialCache::new(b"test-cache".to_vec(), cache_ref(), Some(SecretRecord::new())).unwrap()
}

/// Apply a single-key merge patch to a record the way the server would.
fn merge_into(server: &mut SecretRecord, key: &[u8], value: &[u8]) {
    server.set(key.to_vec(), value.to_vec());
}

#[test]
fn missing_backing_record_fails_construction() {
    match CredentialCache::new(b"test-cache".to_vec(), cache_ref(), None) {
        Err(Error::GetInitialCache { cache_ref: cr }) => {
            assert_eq!(cr.namespace, b"kerberos".to_vec());
            assert_eq!(cr.name, b"creds".to_vec());
        },
        _ => panic!("an absent backing record must fail the initial load"),
    }
}

#[test]
fn empty_record_scenario_generates_saves_and_caches() {
    // Backing record {}; a lookup of "svc1" must generate.
    let mut cache = empty_cache();
    let key = b"svc1".to_vec();
    let generated = match cache.get_or_insert_start(&key) {
        GetOrInsert::MustGenerate(ctx) => {
            assert_eq!(ctx.cache_ref.name, b"creds".to_vec());
            b"KEY1".to_vec()
        },
        GetOrInsert::Hit(_) => panic!("an empty record cannot hit"),
    };
    // The patch names exactly {"svc1": "KEY1"} under the fixed manager.
    let patch = cache.make_patch(&key, &generated);
    assert_eq!(
        patch.field_manager,
        b"secrets.stackable.tech/krb5-provision-keytab".to_vec()
    );
    assert_eq!(patch.update.get(&key), Some(&b"KEY1".to_vec()));
    assert_eq!(patch.update.entries.len(), 1);
    // The server merges the patch and answers with the resulting record.
    let mut server = SecretRecord::new();
    merge_into(&mut server, &key, &generated);
    let got = cache.get_or_insert_commit(&key, Ok(server)).unwrap();
    assert_eq!(got, b"KEY1".to_vec());
    // A second call hits and would never run a generator returning "KEY2".
    match cache.get_or_insert_start(&key) {
        GetOrInsert::Hit(v) => assert_eq!(v, &b"KEY1".to_vec()),
        GetOrInsert::MustGenerate(_) => panic!("the saved key must be a hit"),
    }
}

#[test]
fn generator_failure_is_not_cached() {
    // A failed generation performs no commit; the next lookup generates
    // again rather than remembering the failure.
    let mut cache = empty_cache();
    let key = b"svc1".to_vec();
    match cache.get_or_insert_start(&key) {
        GetOrInsert::MustGenerate(_) => {},  // the generator fails here
        GetOrInsert::Hit(_) => panic!("an empty record cannot hit"),
    }
    match cache.get_or_insert_start(&key) {
        GetOrInsert::MustGenerate(_) => {},
        GetOrInsert::Hit(_) => panic!("a failure must not be cached"),
    }
    // The record is still empty, so a later success proceeds normally.
    let mut server = SecretRecord::new();
    merge_into(&mut server, &key, b"KEY1");
    let got = cache.get_or_insert_commit(&key, Ok(server)).unwrap();
    assert_eq!(got, b"KEY1".to_vec());
}

#[test]
fn hit_path_reads_without_writing() {
    let mut loaded = SecretRecord::new();
    loaded.set(b"svc1".to_vec(), b"KEY1".to_vec());
    let cache = CredentialCache::new(b"test-cache".to_vec(), cache_ref(), Some(loaded)).unwrap();
    // get_or_insert_start takes &self: the state cannot change, and a
    // present key is answered without any patch being built.
    match cache.get_or_insert_start(&b"svc1".to_vec()) {
        GetOrInsert::Hit(v) => assert_eq!(v, &b"KEY1".to_vec()),
        GetOrInsert::MustGenerate(_) => panic!("a present key must hit"),
    }
    assert_eq!(cache.get_if_present(&b"svc1".to_vec()), Some(&b"KEY1".to_vec()));
    assert_eq!(cache.get_if_present(&b"other".to_vec()), None);
}

#[test]
fn rejected_patch_is_reported_and_changes_nothing() {
    let mut cache = empty_cache();
    let key = b"svc1".to_vec();
    match cache.get_or_insert_commit(&key, Err(())) {
        Err(Error::SaveToCache { key: k, cache_ref: cr }) => {
            assert_eq!(k, b"svc1".to_vec());
            assert_eq!(cr.name, b"creds".to_vec());
        },
        _ => panic!("a rejected patch must be a save error"),
    }
    assert_eq!(cache.get_if_present(&key), None);
}

#[test]
fn missing_key_after_save_is_a_consistency_error() {
    let mut cache = empty_cache();
    let key = b"svc1".to_vec();
    // The server accepted the patch but its record lacks the key.
    let server = SecretRecord::new();
    match cache.get_or_insert_commit(&key, Ok(server)) {
        Err(Error::SavedKeyNotFound { key: k, cache_ref: cr }) => {
            assert_eq!(k, b"svc1".to_vec());
            assert_eq!(cr.namespace, b"kerberos".to_vec());
        },
        _ => panic!("a missing saved key must be a consistency error"),
    }
}

#[test]
fn racing_idempotent_generators_observe_one_value() {
    // Two callers, each with its own view of the backing record, race on
    // the same missing key with an idempotent generator: both save the
    // same bytes, and both read the same bytes back, whatever else the
    // record accumulated in between.
    let key = b"svc1".to_vec();
    let value = b"KEY1".to_vec();

    let mut caller_a = empty_cache();
    let mut caller_b = empty_cache();

    // The server applies caller A's patch first.
    let mut server_state = SecretRecord::new();
    merge_into(&mut server_state, &key, &value);
    let mut server_after_a = SecretRecord::new();
    merge_into(&mut server_after_a, &key, &value);
    let got_a = caller_a.get_or_insert_commit(&key, Ok(server_after_a)).unwrap();

    // Another writer lands an unrelated key, then caller B's identical
    // patch merges on top.
    merge_into(&mut server_state, b"svc2", b"OTHER");
    merge_into(&mut server_state, &key, &value);
    let got_b = caller_b.get_or_insert_commit(&key, Ok(server_state)).unwrap();

    assert_eq!(got_a, got_b);
    assert_eq!(got_a, b"KEY1".to_vec());
    // And any later reader of either cache observes that same value.
    match caller_b.get_or_insert_start(&key) {
        GetOrInsert::Hit(v) => assert_eq!(v, &b"KEY1".to_vec()),
        GetOrInsert::MustGenerate(_) => panic!("the merged key must be present"),
    }
}

#[test]
fn record_set_overwrites_in_place_and_keeps_other_keys() {
    let mut record = SecretRecord::new();
    record.set(b"a".to_vec(), b"1".to_vec());
    record.set(b"b".to_vec(), b"2".to_vec());
    record.set(b"a".to_vec(), b"3".to_vec());
    assert_eq!(record.get(&b"a".to_vec()), Some(&b"3".to_vec()));
    assert_eq!(record.get(&b"b".to_vec()), Some(&b"2".to_vec()));
    assert_eq!(record.get(&b"c".to_vec()), None);
    assert_eq!(record.entries.len(), 2);
}
