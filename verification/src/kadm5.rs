//! The administrative session: an authenticated handle against a remote
//! Kerberos administration service, used to create principals and fetch
//! their keys.
//!
//! The remote calls themselves are transport work and happen outside this
//! library: for each operation the session builds the exact request to
//! send, and interprets the status code (and payload) that came back.
//! Everything decided here — which fields a request carries, which codes
//! mean what — is verified.

use vstd::prelude::*;

use crate::krb5::KrbContext;
use crate::principal::{components_view, Principal};

verus! {

/// An error reported by the administration service.
#[derive(Debug)]
pub struct Error {
    /// The status code the service answered with.
    pub code: i64,
}

/// The status code that means success.
pub const KADM5_OK: i64 = 0;

/// The well-known status code for "this principal already exists".
/// Callers creating principals must treat it as "already provisioned",
/// not as a generic failure.
pub const KADM5_DUP: i64 = 43787527;

/// The version of the request structure layout this binding speaks.
pub const KADM5_STRUCT_VERSION_1: u32 = 0x12345601;

/// The version of the administration API this binding speaks.
pub const KADM5_API_VERSION_4: u32 = 0x12345704;

/// The mask bit saying a default realm was supplied.
pub const KADM5_CONFIG_REALM: i64 = 0x1;

/// The mask bit saying an admin port was supplied.
pub const KADM5_CONFIG_KADMIND_PORT: i64 = 0x4;

/// The mask bit saying an admin server host was supplied.
pub const KADM5_CONFIG_ADMIN_SERVER: i64 = 0x8;

/// The mask bit naming the principal identity field of a principal
/// record.
pub const KADM5_PRINCIPAL: i64 = 0x1;

/// The key version number wildcard: fetch every version.
pub const KVNO_ALL: u32 = 0;

impl Error {
    /// Turn a status code from the service into a `Result`: the success
    /// code becomes `Ok`, anything else is reported with its code.
    pub fn from_ret(code: i64) -> (r: Result<(), Error>)
        ensures
            code == KADM5_OK <==> r is Ok,
            r matches Err(e) ==> e.code == code,
    {
        if code == KADM5_OK {
            Ok(())
        } else {
            Err(Error { code })
        }
    }

    /// Whether this error is the well-known "duplicate identity" answer.
    pub fn is_duplicate(&self) -> (r: bool)
        ensures
            r <==> self.code == KADM5_DUP,
    {
        self.code == KADM5_DUP
    }
}

/// Credentials that can be used to authenticate to the administration
/// service.
pub enum Credential {
    /// A key stored in a keytab.
    ServiceKey {
        /// The path to the keytab containing the key.
        keytab: Vec<u8>,
    },
}

/// Configuration fields for the administration session.
pub struct ConfigParams {
    /// The default realm.
    pub default_realm: Option<Vec<u8>>,
    /// The hostname of the administration server.
    pub admin_server: Option<Vec<u8>>,
    /// The port of the administration server.
    pub kadmind_port: Option<i32>,
}

impl Default for ConfigParams {
    fn default() -> (r: Self)
        ensures
            r.default_realm is None,
            r.admin_server is None,
            r.kadmind_port is None,
    {
        ConfigParams { default_realm: None, admin_server: None, kadmind_port: None }
    }
}

/// The wire form of [`ConfigParams`]: the optional fields plus the mask
/// that says which of them are meaningful.
pub struct RawConfigParams {
    pub mask: i64,
    pub realm: Option<Vec<u8>>,
    pub admin_server: Option<Vec<u8>>,
    pub kadmind_port: Option<i32>,
}

impl ConfigParams {
    /// Build the wire form of these parameters: each supplied field is
    /// copied over and its mask bit set; nothing else is in the mask.
    pub fn as_c(&self) -> (r: RawConfigParams)
        ensures
            r.mask == (if self.default_realm is Some {
                KADM5_CONFIG_REALM
            } else {
                0i64
            }) | (if self.admin_server is Some {
                KADM5_CONFIG_ADMIN_SERVER
            } else {
                0i64
            }) | (if self.kadmind_port is Some {
                KADM5_CONFIG_KADMIND_PORT
            } else {
                0i64
            }),
            match self.default_realm {
                Some(d) => r.realm matches Some(v) && v@ == d@,
                None => r.realm is None,
            },
            match self.admin_server {
                Some(h) => r.admin_server matches Some(v) && v@ == h@,
                None => r.admin_server is None,
            },
            r.kadmind_port == self.kadmind_port,
    {
        let realm = match &self.default_realm {
            Some(d) => Some(crate::copy_bytes(d)),
            None => None,
        };
        let admin_server = match &self.admin_server {
            Some(h) => Some(crate::copy_bytes(h)),
            None => None,
        };
        let kadmind_port = self.kadmind_port;
        let mask: i64 = (if realm.is_some() {
            KADM5_CONFIG_REALM
        } else {
            0
        }) | (if admin_server.is_some() {
            KADM5_CONFIG_ADMIN_SERVER
        } else {
            0
        }) | (if kadmind_port.is_some() {
            KADM5_CONFIG_KADMIND_PORT
        } else {
            0
        });
        RawConfigParams { mask, realm, admin_server, kadmind_port }
    }
}

/// The authentication handshake request an administration session opens
/// with: who is authenticating, to which service, with which credential,
/// under which protocol versions.
pub struct InitRequest {
    pub client_name: Vec<u8>,
    pub service_name: Option<Vec<u8>>,
    pub keytab: Vec<u8>,
    pub params: RawConfigParams,
    pub struct_version: u32,
    pub api_version: u32,
}

/// Build the handshake request for a session.
///
/// `client_name` is the principal of the administration client;
/// `service_name` is the expected principal of the service, or `None` for
/// the default; the credential names the keytab holding the client's key.
pub fn init_request(
    client_name: &Vec<u8>,
    service_name: Option<&Vec<u8>>,
    credential: &Credential,
    params: &ConfigParams,
) -> (r: InitRequest)
    ensures
        r.client_name@ == client_name@,
        match service_name {
            Some(s) => r.service_name matches Some(v) && v@ == s@,
            None => r.service_name is None,
        },
        credential matches Credential::ServiceKey { keytab } ==> r.keytab@ == keytab@,
        r.params.mask == params.as_c_mask(),
        match params.default_realm {
            Some(d) => r.params.realm matches Some(v) && v@ == d@,
            None => r.params.realm is None,
        },
        match params.admin_server {
            Some(h) => r.params.admin_server matches Some(v) && v@ == h@,
            None => r.params.admin_server is None,
        },
        r.params.kadmind_port == params.kadmind_port,
        r.struct_version == KADM5_STRUCT_VERSION_1,
        r.api_version == KADM5_API_VERSION_4,
{
    let keytab = match credential {
        Credential::ServiceKey { keytab } => crate::copy_bytes(keytab),
    };
    InitRequest {
        client_name: crate::copy_bytes(client_name),
        service_name: match service_name {
            Some(s) => Some(crate::copy_bytes(s)),
            None => None,
        },
        keytab,
        params: params.as_c(),
        struct_version: KADM5_STRUCT_VERSION_1,
        api_version: KADM5_API_VERSION_4,
    }
}

impl ConfigParams {
    /// The mask [`ConfigParams::as_c`] computes, as a spec value.
    pub open spec fn as_c_mask(&self) -> i64 {
        (if self.default_realm is Some {
            KADM5_CONFIG_REALM
        } else {
            0i64
        }) | (if self.admin_server is Some {
            KADM5_CONFIG_ADMIN_SERVER
        } else {
            0i64
        }) | (if self.kadmind_port is Some {
            KADM5_CONFIG_KADMIND_PORT
        } else {
            0i64
        })
    }
}

/// A live administration session.
///
/// The handshake itself is remote: a session value exists exactly when
/// the service answered the [`init_request`] with success, and it borrows
/// the context it belongs to.
pub struct ServerHandle<'a> {
    pub ctx: &'a KrbContext,
}

/// The remote request that creates a principal: the identity, and the
/// mask saying that only the identity field is set — no optional
/// attributes travel with it.
pub struct CreatePrincipalRequest {
    pub principal_components: Vec<Vec<u8>>,
    pub principal_realm: Vec<u8>,
    pub mask: i64,
}

/// The remote request that fetches a principal's keys at one version, or
/// at every version with [`KVNO_ALL`].
pub struct GetPrincipalKeysRequest {
    pub principal_components: Vec<Vec<u8>>,
    pub principal_realm: Vec<u8>,
    pub kvno: u32,
}

/// One key of a principal as the administration service reports it.
pub struct KeyData {
    pub kvno: u32,
    pub enctype: i32,
    pub contents: Vec<u8>,
}

impl<'a> ServerHandle<'a> {
    /// Open a session from the service's answer to the handshake: success
    /// yields a live handle tied to `ctx`, any other code is the error.
    pub fn new(ctx: &'a KrbContext, handshake_ret: i64) -> (r: Result<Self, Error>)
        ensures
            match r {
                Ok(h) => handshake_ret == KADM5_OK && h.ctx == ctx,
                Err(e) => handshake_ret != KADM5_OK && e.code == handshake_ret,
            },
    {
        match Error::from_ret(handshake_ret) {
            Ok(()) => Ok(ServerHandle { ctx }),
            Err(e) => Err(e),
        }
    }

    /// Build the request that creates `principal`, with no optional
    /// attributes beyond the identity itself.
    pub fn create_principal_request(&self, principal: &Principal) -> (r: CreatePrincipalRequest)
        ensures
            components_view(r.principal_components@) == principal.spec_components(),
            r.principal_realm@ == principal.realm@,
            r.mask == KADM5_PRINCIPAL,
    {
        CreatePrincipalRequest {
            principal_components: copy_component_vec(&principal.components),
            principal_realm: crate::copy_bytes(&principal.realm),
            mask: KADM5_PRINCIPAL,
        }
    }

    /// Interpret the service's answer to a create request. The
    /// well-known duplicate code ([`KADM5_DUP`]) is surfaced like any
    /// other failure; [`Error::is_duplicate`] tells it apart.
    pub fn create_principal(&self, ret: i64) -> (r: Result<(), Error>)
        ensures
            ret == KADM5_OK <==> r is Ok,
            r matches Err(e) ==> e.code == ret,
    {
        Error::from_ret(ret)
    }

    /// Build the request that fetches the keys of `principal` at version
    /// `kvno`, or all versions with [`KVNO_ALL`].
    pub fn get_principal_keys_request(&self, principal: &Principal, kvno: u32) -> (r:
        GetPrincipalKeysRequest)
        ensures
            components_view(r.principal_components@) == principal.spec_components(),
            r.principal_realm@ == principal.realm@,
            r.kvno == kvno,
    {
        GetPrincipalKeysRequest {
            principal_components: copy_component_vec(&principal.components),
            principal_realm: crate::copy_bytes(&principal.realm),
            kvno,
        }
    }

    /// Interpret the service's answer to a key-fetch request: on success
    /// the reported keys become an owned collection tied to this
    /// session's context; any other code is the error.
    pub fn get_principal_keys(&self, ret: i64, keys: Vec<KeyData>) -> (r: Result<
        KeyDataVec<'a>,
        Error,
    >)
        ensures
            match r {
                Ok(kd) => ret == KADM5_OK && kd.ctx == self.ctx && kd.keys == keys,
                Err(e) => ret != KADM5_OK && e.code == ret,
            },
    {
        match Error::from_ret(ret) {
            Ok(()) => Ok(KeyDataVec { ctx: self.ctx, keys }),
            Err(e) => Err(e),
        }
    }
}

fn copy_component_vec(v: &Vec<Vec<u8>>) -> (r: Vec<Vec<u8>>)
    ensures
        components_view(r@) == components_view(v@),
{
    let mut out: Vec<Vec<u8>> = Vec::new();
    let mut i: usize = 0;
    while i < v.len()
        invariant
            0 <= i <= v.len(),
            out@.len() == i,
            forall|j: int| 0 <= j < i ==> out@[j]@ == v@[j]@,
        decreases v.len() - i,
    {
        out.push(crate::copy_bytes(&v[i]));
        i += 1;
    }
    proof {
        assert(components_view(out@) =~= components_view(v@));
    }
    out
}

/// An unowned reference to one of a principal's keys; it must not outlive
/// the collection it was handed out from.
pub struct KeyDataRef<'a> {
    pub kvno: u32,
    pub keyblock: crate::keyblock::KeyblockRef<'a>,
}

/// An owned batch of keys associated with a principal, as returned by
/// [`ServerHandle::get_principal_keys`].
pub struct KeyDataVec<'a> {
    pub ctx: &'a KrbContext,
    pub keys: Vec<KeyData>,
}

impl<'a> KeyDataVec<'a> {
    /// Borrowed views of all keys in the batch, in order. Each view is
    /// valid only while this collection is.
    pub fn keys<'b>(&'b self) -> (r: Vec<KeyDataRef<'b>>)
        ensures
            r@.len() == self.keys@.len(),
            forall|i: int|
                0 <= i < r@.len() ==> {
                    &&& (#[trigger] r@[i]).kvno == self.keys@[i].kvno
                    &&& r@[i].keyblock.enctype == self.keys@[i].enctype
                    &&& r@[i].keyblock.contents@ == self.keys@[i].contents@
                    &&& r@[i].keyblock.ctx == self.ctx
                },
    {
        let mut out: Vec<KeyDataRef<'b>> = Vec::new();
        let mut i: usize = 0;
        while i < self.keys.len()
            invariant
                0 <= i <= self.keys@.len(),
                out@.len() == i,
                forall|j: int|
                    0 <= j < i ==> {
                        &&& (#[trigger] out@[j]).kvno == self.keys@[j].kvno
                        &&& out@[j].keyblock.enctype == self.keys@[j].enctype
                        &&& out@[j].keyblock.contents@ == self.keys@[j].contents@
                        &&& out@[j].keyblock.ctx == self.ctx
                    },
            decreases self.keys@.len() - i,
        {
            let kd = &self.keys[i];
            out.push(
                KeyDataRef {
                    kvno: kd.kvno,
                    keyblock: crate::keyblock::KeyblockRef {
                        ctx: self.ctx,
                        enctype: kd.enctype,
                        contents: &kd.contents,
                    },
                },
            );
            i += 1;
        }
        out
    }
}

} // verus!
