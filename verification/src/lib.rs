//! A verified model of a Kerberos credential-provisioning core.
//!
//! The crate has two halves:
//!
//! - A wrapper family around a Kerberos client context ([`krb5::KrbContext`]):
//!   parsed principals, key material, keytabs and an administrative session.
//!   Every derived value borrows its owning context, so a derived value can
//!   never outlive the context it was created from.
//! - A lock-free, idempotence-based credential cache
//!   ([`credential_cache::CredentialCache`]) in front of key generation,
//!   backed by a remote key/value record that is updated by merge patches.

pub mod credential_cache;
pub mod kadm5;
pub mod krb5;
pub mod keyblock;
pub mod keytab;
pub mod principal;

use vstd::prelude::*;

verus! {

/// Byte-wise equality of two byte vectors.
pub fn bytes_equal(a: &Vec<u8>, b: &Vec<u8>) -> (r: bool)
    ensures
        r <==> a@ == b@,
{
    if a.len() != b.len() {
        return false;
    }
    let mut i: usize = 0;
    while i < a.len()
        invariant
            0 <= i <= a.len(),
            a.len() == b.len(),
            forall|j: int| 0 <= j < i ==> a@[j] == b@[j],
        decreases a.len() - i,
    {
        if a[i] != b[i] {
            return false;
        }
        i += 1;
    }
    proof {
        assert(a@ =~= b@);
    }
    true
}

/// Copy a byte vector.
pub fn copy_bytes(a: &Vec<u8>) -> (r: Vec<u8>)
    ensures
        r@ == a@,
{
    let mut out: Vec<u8> = Vec::new();
    let mut i: usize = 0;
    while i < a.len()
        invariant
            0 <= i <= a.len(),
            out@ == a@.take(i as int),
        decreases a.len() - i,
    {
        out.push(a[i]);
        proof {
            assert(out@ =~= a@.take(i + 1));
        }
        i += 1;
    }
    proof {
        assert(a@.take(a@.len() as int) =~= a@);
    }
    out
}

} // verus!
