use krb5_provision_keytab::krb5::{Error, KRB5_OK};

#[test]
fn success_code_becomes_ok() {
    assert!(Error::from_call_result(KRB5_OK, "all fine".to_string()).is_ok());
}

#[test]
fn failure_code_carries_the_captured_message() {
    match Error::from_call_result(-1765328384, "generic failure".to_string()) {
        Err(Error::Krb5 { reason }) => {
            assert_eq!(reason.code, -1765328384);
            assert_eq!(reason.message, "generic failure");
        },
        _ => panic!("a non-zero code must be an error"),
    }
}

#[test]
fn byte_vectors_compare_by_contents() {
    assert!(krb5_provision_keytab::bytes_equal(&b"abc".to_vec(), &b"abc".to_vec()));
    assert!(!krb5_provision_keytab::bytes_equal(&b"abc".to_vec(), &b"abd".to_vec()));
    assert!(!krb5_provision_keytab::bytes_equal(&b"abc".to_vec(), &b"ab".to_vec()));
    let copy = krb5_provision_keytab::copy_bytes(&b"xyz".to_vec());
    assert_eq!(copy, b"xyz".to_vec());
}
