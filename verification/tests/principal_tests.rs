use krb5_provision_keytab::krb5::{Error, KrbContext, Profile, KRB5_CONFIG_NODEFREALM,
    KRB5_PARSE_MALFORMED};
use krb5_provision_keytab::principal::{PrincipalRealmDisplayMode, PrincipalUnparseOptions};

fn ctx_with_realm(realm: &[u8]) -> KrbContext {
    KrbContext::from_profile(&Profile { default_realm: Some(realm.to_vec()) })
}

fn options(realm: PrincipalRealmDisplayMode, for_display: bool) -> PrincipalUnparseOptions {
    PrincipalUnparseOptions { realm, for_display }
}

#[test]
fn parse_and_unparse_always_round_trips_canonical_form() {
    let ctx = ctx_with_realm(b"EXAMPLE.COM");
    let p = ctx.parse_principal_name(&b"user@EXAMPLE.COM".to_vec()).unwrap();
    let text = p.unparse(options(PrincipalRealmDisplayMode::Always, false));
    assert_eq!(text, b"user@EXAMPLE.COM".to_vec());
}

#[test]
fn parse_uses_default_realm_when_none_given() {
    let ctx = ctx_with_realm(b"EXAMPLE.COM");
    let p = ctx.parse_principal_name(&b"user".to_vec()).unwrap();
    assert_eq!(p.realm, b"EXAMPLE.COM".to_vec());
    let text = p.unparse(options(PrincipalRealmDisplayMode::Always, false));
    assert_eq!(text, b"user@EXAMPLE.COM".to_vec());
}

#[test]
fn parse_without_realm_and_without_default_is_rejected() {
    let ctx = KrbContext::new();
    match ctx.parse_principal_name(&b"user".to_vec()) {
        Err(Error::Krb5 { reason }) => assert_eq!(reason.code, KRB5_CONFIG_NODEFREALM),
        _ => panic!("expected a missing-default-realm error"),
    }
}

#[test]
fn if_foreign_hides_the_default_realm() {
    let ctx = ctx_with_realm(b"EXAMPLE.COM");
    let p = ctx.parse_principal_name(&b"user@EXAMPLE.COM".to_vec()).unwrap();
    let text = p.unparse(options(PrincipalRealmDisplayMode::IfForeign, false));
    assert_eq!(text, b"user".to_vec());
}

#[test]
fn if_foreign_keeps_a_foreign_realm() {
    let ctx = ctx_with_realm(b"EXAMPLE.COM");
    let p = ctx.parse_principal_name(&b"user@OTHER.ORG".to_vec()).unwrap();
    let text = p.unparse(options(PrincipalRealmDisplayMode::IfForeign, false));
    assert_eq!(text, b"user@OTHER.ORG".to_vec());
}

#[test]
fn never_drops_the_realm() {
    let ctx = ctx_with_realm(b"EXAMPLE.COM");
    let p = ctx.parse_principal_name(&b"user@OTHER.ORG".to_vec()).unwrap();
    let text = p.unparse(options(PrincipalRealmDisplayMode::Never, false));
    assert_eq!(text, b"user".to_vec());
}

#[test]
fn multi_component_principal_round_trips() {
    let ctx = ctx_with_realm(b"EXAMPLE.COM");
    let p = ctx.parse_principal_name(&b"svc/host.example.com@EXAMPLE.COM".to_vec()).unwrap();
    assert_eq!(p.components.len(), 2);
    assert_eq!(p.components[0], b"svc".to_vec());
    assert_eq!(p.components[1], b"host.example.com".to_vec());
    let text = p.unparse(options(PrincipalRealmDisplayMode::Always, false));
    assert_eq!(text, b"svc/host.example.com@EXAMPLE.COM".to_vec());
}

#[test]
fn quoted_separator_stays_inside_a_component() {
    let ctx = ctx_with_realm(b"EXAMPLE.COM");
    let p = ctx.parse_principal_name(&b"a\\/b@R".to_vec()).unwrap();
    assert_eq!(p.components.len(), 1);
    assert_eq!(p.components[0], b"a/b".to_vec());
    assert_eq!(p.realm, b"R".to_vec());
    let text = p.unparse(options(PrincipalRealmDisplayMode::Always, false));
    assert_eq!(text, b"a\\/b@R".to_vec());
}

#[test]
fn display_mode_skips_quoting() {
    let ctx = ctx_with_realm(b"EXAMPLE.COM");
    let p = ctx.parse_principal_name(&b"a\\/b@R".to_vec()).unwrap();
    let text = p.unparse(options(PrincipalRealmDisplayMode::Always, true));
    assert_eq!(text, b"a/b@R".to_vec());
}

#[test]
fn trailing_quote_is_malformed() {
    let ctx = ctx_with_realm(b"EXAMPLE.COM");
    match ctx.parse_principal_name(&b"abc\\".to_vec()) {
        Err(Error::Krb5 { reason }) => assert_eq!(reason.code, KRB5_PARSE_MALFORMED),
        _ => panic!("expected a malformed-principal error"),
    }
}

#[test]
fn unquoted_marker_inside_realm_is_malformed() {
    let ctx = ctx_with_realm(b"EXAMPLE.COM");
    match ctx.parse_principal_name(&b"a@R@S".to_vec()) {
        Err(Error::Krb5 { reason }) => assert_eq!(reason.code, KRB5_PARSE_MALFORMED),
        _ => panic!("expected a malformed-principal error"),
    }
}

#[test]
fn unquoted_separator_inside_realm_is_malformed() {
    let ctx = ctx_with_realm(b"EXAMPLE.COM");
    match ctx.parse_principal_name(&b"a@R/S".to_vec()) {
        Err(Error::Krb5 { reason }) => assert_eq!(reason.code, KRB5_PARSE_MALFORMED),
        _ => panic!("expected a malformed-principal error"),
    }
}

#[test]
fn default_salt_is_realm_then_components() {
    let ctx = ctx_with_realm(b"EXAMPLE.COM");
    let p = ctx.parse_principal_name(&b"a/b@R".to_vec()).unwrap();
    let salt = p.default_salt();
    assert_eq!(salt.as_bytes(), &b"Rab".to_vec());
}

#[test]
fn unparse_flags_encode_the_options() {
    assert_eq!(options(PrincipalRealmDisplayMode::Always, false).to_flags(), 0);
    assert_eq!(options(PrincipalRealmDisplayMode::IfForeign, false).to_flags(), 1);
    assert_eq!(options(PrincipalRealmDisplayMode::Never, false).to_flags(), 2);
    assert_eq!(options(PrincipalRealmDisplayMode::Always, true).to_flags(), 4);
    assert_eq!(options(PrincipalRealmDisplayMode::IfForeign, true).to_flags(), 5);
    assert_eq!(options(PrincipalRealmDisplayMode::Never, true).to_flags(), 6);
}

#[test]
fn default_realm_is_reported_from_the_context() {
    let ctx = ctx_with_realm(b"EXAMPLE.COM");
    let realm = ctx.default_realm().unwrap();
    assert_eq!(realm.as_bytes(), &b"EXAMPLE.COM".to_vec());
    let bare = KrbContext::new();
    match bare.default_realm() {
        Err(Error::Krb5 { reason }) => assert_eq!(reason.code, KRB5_CONFIG_NODEFREALM),
        _ => panic!("expected a missing-default-realm error"),
    }
}

#[test]
fn empty_text_is_one_empty_component() {
    let ctx = ctx_with_realm(b"R");
    let p = ctx.parse_principal_name(&b"".to_vec()).unwrap();
    assert_eq!(p.components.len(), 1);
    assert_eq!(p.components[0], b"".to_vec());
    assert_eq!(p.realm, b"R".to_vec());
    let text = p.unparse(options(PrincipalRealmDisplayMode::Always, false));
    assert_eq!(text, b"@R".to_vec());
}
