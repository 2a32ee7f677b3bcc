use krb5_provision_keytab::keyblock::{Keyblock, AES256_CTS_HMAC_SHA1_96, MAX_KRB_LENGTH};
use krb5_provision_keytab::keytab::{Keytab, KeytabKind};
use krb5_provision_keytab::krb5::{Error, KrbContext, KrbData, Profile, StringName,
    KRB5_KT_UNKNOWN_TYPE};

fn ctx_with_realm(realm: &[u8]) -> KrbContext {
    KrbContext::from_profile(&Profile { default_realm: Some(realm.to_vec()) })
}

#[test]
fn new_keyblock_is_zeroed_with_the_requested_length() {
    let ctx = KrbContext::new();
    let kb = Keyblock::new(&ctx, AES256_CTS_HMAC_SHA1_96, 8).unwrap();
    assert_eq!(kb.contents, vec![0u8; 8]);
    assert_eq!(kb.enctype, AES256_CTS_HMAC_SHA1_96);
}

#[test]
fn oversized_keyblock_is_too_long() {
    let ctx = KrbContext::new();
    match Keyblock::new(&ctx, AES256_CTS_HMAC_SHA1_96, MAX_KRB_LENGTH as u64 + 1) {
        Err(Error::StringTooLong { string_name }) => {
            assert_eq!(string_name, StringName::Keyblock)
        },
        _ => panic!("expected a too-long error"),
    }
}

#[test]
fn key_derivation_is_deterministic() {
    let ctx = KrbContext::new();
    let salt = KrbData { ctx: &ctx, contents: b"SALTBYTES".to_vec() };
    let password = b"hunter2".to_vec();
    let a = Keyblock::from_password(&ctx, AES256_CTS_HMAC_SHA1_96, &password, &salt).unwrap();
    let b = Keyblock::from_password(&ctx, AES256_CTS_HMAC_SHA1_96, &password, &salt).unwrap();
    assert_eq!(a.contents, b.contents);
    assert_eq!(a.contents.len(), 32);
}

#[test]
fn derived_key_bytes_are_exactly_the_mix() {
    let ctx = KrbContext::new();
    let salt = KrbData { ctx: &ctx, contents: b"s".to_vec() };
    let password = b"p".to_vec();
    let kb = Keyblock::from_password(&ctx, AES256_CTS_HMAC_SHA1_96, &password, &salt).unwrap();
    let expected: Vec<u8> = (0u8..32).map(|i| 0x03 ^ i).collect();
    assert_eq!(kb.contents, expected);
}

#[test]
fn derivation_from_principal_salt_matches_itself() {
    let ctx = ctx_with_realm(b"EXAMPLE.COM");
    let p = ctx.parse_principal_name(&b"user@EXAMPLE.COM".to_vec()).unwrap();
    let salt1 = p.default_salt();
    let salt2 = p.default_salt();
    let a = Keyblock::from_password(&ctx, AES256_CTS_HMAC_SHA1_96, &b"pw".to_vec(), &salt1)
        .unwrap();
    let b = Keyblock::from_password(&ctx, AES256_CTS_HMAC_SHA1_96, &b"pw".to_vec(), &salt2)
        .unwrap();
    assert_eq!(a.contents, b.contents);
}

#[test]
fn other_enctypes_derive_short_keys() {
    let ctx = KrbContext::new();
    let salt = KrbData { ctx: &ctx, contents: b"s".to_vec() };
    let kb = Keyblock::from_password(&ctx, 17, &b"p".to_vec(), &salt).unwrap();
    assert_eq!(kb.contents.len(), 16);
}

#[test]
fn contents_mut_exposes_the_key_bytes() {
    let ctx = KrbContext::new();
    let mut kb = Keyblock::new(&ctx, AES256_CTS_HMAC_SHA1_96, 4).unwrap();
    kb.contents_mut().fill(7);
    assert_eq!(kb.contents, vec![7u8; 4]);
}

#[test]
fn keyblock_as_ref_views_the_same_bytes() {
    let ctx = KrbContext::new();
    let kb = Keyblock::new(&ctx, AES256_CTS_HMAC_SHA1_96, 3).unwrap();
    let view = kb.as_ref();
    assert_eq!(view.enctype, AES256_CTS_HMAC_SHA1_96);
    assert_eq!(view.contents, &vec![0u8; 3]);
}

#[test]
fn resolve_splits_type_and_residual() {
    let ctx = KrbContext::new();
    let kt = Keytab::resolve(&ctx, &b"FILE:/tmp/kt".to_vec()).unwrap();
    assert_eq!(kt.kind, KeytabKind::File);
    assert_eq!(kt.residual, b"/tmp/kt".to_vec());
    assert_eq!(kt.entries.len(), 0);

    let kt = Keytab::resolve(&ctx, &b"MEMORY:scratch".to_vec()).unwrap();
    assert_eq!(kt.kind, KeytabKind::Memory);
    assert_eq!(kt.residual, b"scratch".to_vec());
}

#[test]
fn resolve_without_type_is_a_file() {
    let ctx = KrbContext::new();
    let kt = Keytab::resolve(&ctx, &b"/etc/krb5.keytab".to_vec()).unwrap();
    assert_eq!(kt.kind, KeytabKind::File);
    assert_eq!(kt.residual, b"/etc/krb5.keytab".to_vec());
}

#[test]
fn resolve_unknown_type_is_rejected() {
    let ctx = KrbContext::new();
    match Keytab::resolve(&ctx, &b"DB:whatever".to_vec()) {
        Err(Error::Krb5 { reason }) => assert_eq!(reason.code, KRB5_KT_UNKNOWN_TYPE),
        _ => panic!("expected an unknown-type error"),
    }
}

#[test]
fn resolve_empty_residual_is_allowed() {
    let ctx = KrbContext::new();
    let kt = Keytab::resolve(&ctx, &b"FILE:".to_vec()).unwrap();
    assert_eq!(kt.kind, KeytabKind::File);
    assert_eq!(kt.residual, b"".to_vec());
}

#[test]
fn add_appends_an_entry_copying_the_key() {
    let ctx = ctx_with_realm(b"EXAMPLE.COM");
    let p = ctx.parse_principal_name(&b"svc/host@EXAMPLE.COM".to_vec()).unwrap();
    let salt = p.default_salt();
    let kb = Keyblock::from_password(&ctx, AES256_CTS_HMAC_SHA1_96, &b"pw".to_vec(), &salt)
        .unwrap();
    let mut kt = Keytab::resolve(&ctx, &b"MEMORY:kt".to_vec()).unwrap();
    kt.add(&p, 3, &kb.as_ref());
    assert_eq!(kt.entries.len(), 1);
    let e = &kt.entries[0];
    assert_eq!(e.kvno, 3);
    assert_eq!(e.key_enctype, AES256_CTS_HMAC_SHA1_96);
    assert_eq!(e.key_contents, kb.contents);
    assert_eq!(e.principal_realm, b"EXAMPLE.COM".to_vec());
    assert_eq!(e.principal_components, vec![b"svc".to_vec(), b"host".to_vec()]);

    kt.add(&p, 4, &kb.as_ref());
    assert_eq!(kt.entries.len(), 2);
    assert_eq!(kt.entries[0].kvno, 3);
    assert_eq!(kt.entries[1].kvno, 4);
}
