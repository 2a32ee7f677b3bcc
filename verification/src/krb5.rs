//! The Kerberos client context and the error type shared by everything
//! derived from it.
//!
//! Most other data structures of this crate are linked to a specific
//! [`KrbContext`] and must not be mixed between contexts or used past the
//! lifetime of the owning context. They record this as a borrow on their
//! `KrbContext`, so misuse is a compile-time error.

use vstd::prelude::*;

verus! {

/// An error raised by a Kerberos operation, or from preparing one.
#[derive(Debug)]
pub enum Error {
    /// An operation failed with a Kerberos status code.
    Krb5 { reason: Krb5Error },
    /// A byte string was too long for the 32-bit length field of the wire
    /// representation.
    StringTooLong { string_name: StringName },
}

/// Which input was too long for a 32-bit length field.
#[derive(Clone, Copy, PartialEq, Eq, Structural, Debug)]
pub enum StringName {
    Password,
    Keyblock,
}

/// A Kerberos failure: a status code plus the message captured at the
/// moment of failure.
#[derive(Debug)]
pub struct Krb5Error {
    pub message: String,
    pub code: i32,
}

/// The status code that means success.
pub const KRB5_OK: i32 = 0;

/// The status code for a malformed principal text.
pub const KRB5_PARSE_MALFORMED: i32 = -1765328253;

/// The status code for a context without a configured default realm.
pub const KRB5_CONFIG_NODEFREALM: i32 = -1765328160;

/// The status code for an unknown keytab location type.
pub const KRB5_KT_UNKNOWN_TYPE: i32 = -1765328202;

impl Error {
    /// Turn a status code and its captured message into a `Result`:
    /// the success code becomes `Ok`, anything else is reported.
    pub fn from_call_result(code: i32, message: String) -> (r: Result<(), Error>)
        ensures
            code == KRB5_OK <==> r is Ok,
            r matches Err(e) ==> e matches Error::Krb5 { reason }
                && reason.code == code && reason.message@ == message@,
    {
        if code == KRB5_OK {
            Ok(())
        } else {
            Err(Error::Krb5 { reason: Krb5Error { message, code } })
        }
    }
}

/// Configuration values a context can be seeded from.
pub struct Profile {
    /// The default realm, if one is configured.
    pub default_realm: Option<Vec<u8>>,
}

/// An instance of the Kerberos client.
///
/// `KrbContext` holds the configuration every derived value consults; the
/// derived values borrow it, so the context must outlive all of them.
pub struct KrbContext {
    pub default_realm: Option<Vec<u8>>,
}

impl KrbContext {
    /// The configured default realm as a spec-level value.
    pub open spec fn spec_default_realm(&self) -> Option<Seq<u8>> {
        match self.default_realm {
            Some(r) => Some(r@),
            None => None,
        }
    }

    /// Create a new context with no default realm configured.
    pub fn new() -> (r: Self)
        ensures
            r.spec_default_realm() is None,
    {
        KrbContext { default_realm: None }
    }

    /// Create a new context from a given [`Profile`].
    /// The profile's values are copied into the created context.
    pub fn from_profile(profile: &Profile) -> (r: Self)
        ensures
            match profile.default_realm {
                Some(d) => r.spec_default_realm() == Some(d@),
                None => r.spec_default_realm() is None,
            },
    {
        match &profile.default_realm {
            Some(d) => KrbContext { default_realm: Some(crate::copy_bytes(d)) },
            None => KrbContext { default_realm: None },
        }
    }

    /// Get the default realm configured for this context, or report
    /// [`KRB5_CONFIG_NODEFREALM`] if none is.
    pub fn default_realm<'a>(&'a self) -> (r: Result<DefaultRealm<'a>, Error>)
        ensures
            match r {
                Ok(d) => self.spec_default_realm() == Some(d.realm@),
                Err(e) => self.spec_default_realm() is None
                    && (e matches Error::Krb5 { reason } && reason.code == KRB5_CONFIG_NODEFREALM),
            },
    {
        match &self.default_realm {
            Some(d) => Ok(DefaultRealm { ctx: self, realm: crate::copy_bytes(d) }),
            None => Err(Error::Krb5 {
                reason: Krb5Error {
                    message: default_realm_missing_message(),
                    code: KRB5_CONFIG_NODEFREALM,
                },
            }),
        }
    }

    /// The default realm as plain bytes, if configured. Internal helper for
    /// parsing and unparsing.
    pub(crate) fn default_realm_bytes(&self) -> (r: Option<&Vec<u8>>)
        ensures
            match r {
                Some(d) => self.spec_default_realm() == Some(d@),
                None => self.spec_default_realm() is None,
            },
    {
        match &self.default_realm {
            Some(d) => Some(d),
            None => None,
        }
    }
}

fn default_realm_missing_message() -> String {
    "no default realm is configured for this context".to_string()
}

/// The default realm name of a [`KrbContext`].
///
/// Created by [`KrbContext::default_realm`]; borrows the context it was
/// read from.
pub struct DefaultRealm<'a> {
    pub ctx: &'a KrbContext,
    pub realm: Vec<u8>,
}

impl<'a> DefaultRealm<'a> {
    /// The realm name bytes.
    pub fn as_bytes(&self) -> (r: &Vec<u8>)
        ensures
            r == &self.realm,
    {
        &self.realm
    }
}

/// Opaque Kerberos data: a byte buffer owned by the Kerberos layer,
/// tied to the context it was produced from.
pub struct KrbData<'a> {
    pub ctx: &'a KrbContext,
    pub contents: Vec<u8>,
}

impl<'a> KrbData<'a> {
    /// The raw bytes of this datum.
    pub fn as_bytes(&self) -> (r: &Vec<u8>)
        ensures
            r == &self.contents,
    {
        &self.contents
    }
}

} // verus!
