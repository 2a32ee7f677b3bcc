//! Keytabs: append-only containers of (principal, key version, key)
//! entries, identified by a `{type}:{residual}` name.

use vstd::prelude::*;

use crate::keyblock::KeyblockRef;
use crate::krb5::{Error, KrbContext, Krb5Error, KRB5_KT_UNKNOWN_TYPE};
use crate::principal::{components_view, Principal};

verus! {

/// The `:` that separates the location type from the residual.
pub const COLON: u8 = 58;

/// Where a keytab lives.
#[derive(Clone, Copy, PartialEq, Eq, Structural, Debug)]
pub enum KeytabKind {
    /// A keytab serialized to a file.
    File,
    /// An unnamed transient in-memory keytab.
    Memory,
}

/// The index of the first `:` in a keytab name, or the name's length if
/// there is none.
pub open spec fn first_colon(n: Seq<u8>) -> int
    decreases n.len(),
{
    if n.len() == 0 {
        0
    } else if n[0] == COLON {
        0
    } else {
        1 + first_colon(n.skip(1))
    }
}

/// The bytes of the location type `FILE`.
pub open spec fn file_prefix() -> Seq<u8> {
    seq![70u8, 73u8, 76u8, 69u8]
}

/// The bytes of the location type `MEMORY`.
pub open spec fn memory_prefix() -> Seq<u8> {
    seq![77u8, 69u8, 77u8, 79u8, 82u8, 89u8]
}

/// Parse a keytab name `{type}:{residual}`. A name without a colon is a
/// file name; a name with an unknown type before the colon is rejected.
pub open spec fn parse_keytab_name(n: Seq<u8>) -> Option<(KeytabKind, Seq<u8>)> {
    let i = first_colon(n);
    if i == n.len() {
        Some((KeytabKind::File, n))
    } else {
        let prefix = n.take(i);
        if prefix == file_prefix() {
            Some((KeytabKind::File, n.skip(i + 1)))
        } else if prefix == memory_prefix() {
            Some((KeytabKind::Memory, n.skip(i + 1)))
        } else {
            None
        }
    }
}

/// `first_colon` names the one position a scan finds: no colon before it,
/// and a colon (or the end) at it.
proof fn lemma_first_colon_at(n: Seq<u8>, i: int)
    requires
        0 <= i <= n.len(),
        forall|j: int| 0 <= j < i ==> n[j] != COLON,
        i < n.len() ==> n[i] == COLON,
    ensures
        first_colon(n) == i,
    decreases n.len(),
{
    if n.len() == 0 {
    } else if n[0] == COLON {
        assert(i == 0);
    } else {
        assert(i >= 1);
        lemma_first_colon_at(n.skip(1), i - 1);
    }
}

/// One entry of a keytab: a principal, a key version number and a copy of
/// the key material.
pub struct KeytabEntry {
    pub principal_components: Vec<Vec<u8>>,
    pub principal_realm: Vec<u8>,
    pub kvno: u32,
    pub key_enctype: i32,
    pub key_contents: Vec<u8>,
}

/// A Kerberos keytab, mutated only by appending entries.
pub struct Keytab<'a> {
    pub ctx: &'a KrbContext,
    pub kind: KeytabKind,
    pub residual: Vec<u8>,
    pub entries: Vec<KeytabEntry>,
}

fn copy_components(v: &Vec<Vec<u8>>) -> (r: Vec<Vec<u8>>)
    ensures
        components_view(r@) == components_view(v@),
{
    let mut out: Vec<Vec<u8>> = Vec::new();
    let mut i: usize = 0;
    while i < v.len()
        invariant
            0 <= i <= v.len(),
            out@.len() == i,
            forall|j: int| 0 <= j < i ==> out@[j]@ == v@[j]@,
        decreases v.len() - i,
    {
        out.push(crate::copy_bytes(&v[i]));
        i += 1;
    }
    proof {
        assert(components_view(out@) =~= components_view(v@));
    }
    out
}

impl<'a> Keytab<'a> {
    /// Resolve a `Keytab` for a given name.
    ///
    /// `name` should follow the format `{type}:{residual}`, such as
    /// `FILE:/foo/bar`; a name without a type is a file name. Resolving is
    /// an open/create operation: the backing store need not pre-exist, so
    /// the resolved keytab starts with no entries. An unknown location
    /// type is reported as [`KRB5_KT_UNKNOWN_TYPE`].
    pub fn resolve(ctx: &'a KrbContext, name: &Vec<u8>) -> (r: Result<Self, Error>)
        ensures
            match r {
                Ok(kt) => {
                    &&& parse_keytab_name(name@) == Some((kt.kind, kt.residual@))
                    &&& kt.entries@.len() == 0
                    &&& kt.ctx == ctx
                },
                Err(e) => parse_keytab_name(name@) is None && (e matches Error::Krb5 { reason }
                    && reason.code == KRB5_KT_UNKNOWN_TYPE),
            },
    {
        let n = name.len();
        let mut i: usize = 0;
        while i < n && name[i as usize] != COLON
            invariant
                0 <= i <= n,
                n == name@.len(),
                forall|j: int| 0 <= j < i ==> name@[j] != COLON,
            decreases n - i,
        {
            i += 1;
        }
        proof {
            lemma_first_colon_at(name@, i as int);
        }
        if i == n {
            return Ok(
                Keytab {
                    ctx,
                    kind: KeytabKind::File,
                    residual: crate::copy_bytes(name),
                    entries: Vec::new(),
                },
            );
        }
        let is_file = i == 4 && name[0] == 70 && name[1] == 73 && name[2] == 76 && name[3] == 69;
        let is_memory = i == 6 && name[0] == 77 && name[1] == 69 && name[2] == 77 && name[3] == 79
            && name[4] == 82 && name[5] == 89;
        proof {
            let p = name@.take(i as int);
            assert(p.len() == i);
            if is_file {
                assert(p =~= file_prefix());
            } else {
                assert(p != file_prefix()) by {
                    if p == file_prefix() {
                        assert(p.len() == 4);
                        assert(name@[0] == p[0] && name@[1] == p[1] && name@[2] == p[2] && name@[3]
                            == p[3]);
                    }
                }
            }
            if is_memory {
                assert(p =~= memory_prefix());
            } else {
                assert(p != memory_prefix()) by {
                    if p == memory_prefix() {
                        assert(p.len() == 6);
                        assert(name@[0] == p[0] && name@[1] == p[1] && name@[2] == p[2] && name@[3]
                            == p[3] && name@[4] == p[4] && name@[5] == p[5]);
                    }
                }
            }
        }
        if !(is_file || is_memory) {
            return Err(
                Error::Krb5 {
                    reason: Krb5Error {
                        message: "unknown keytab location type".to_string(),
                        code: KRB5_KT_UNKNOWN_TYPE,
                    },
                },
            );
        }
        let mut residual: Vec<u8> = Vec::new();
        let mut j = i + 1;
        while j < n
            invariant
                i + 1 <= j <= n,
                n == name@.len(),
                residual@ == name@.subrange(i + 1, j as int),
            decreases n - j,
        {
            residual.push(name[j]);
            proof {
                assert(name@.subrange(i + 1, j + 1) =~= name@.subrange(i + 1, j as int).push(
                    name@[j as int],
                ));
            }
            j += 1;
        }
        proof {
            assert(name@.subrange(i + 1, n as int) =~= name@.skip(i + 1));
        }
        Ok(
            Keytab {
                ctx,
                kind: if is_file {
                    KeytabKind::File
                } else {
                    KeytabKind::Memory
                },
                residual,
                entries: Vec::new(),
            },
        )
    }

    /// Add the specified key to the keytab: a new entry bound to the
    /// principal and version, holding a copy of the key's current
    /// contents. Nothing already in the keytab changes.
    pub fn add(&mut self, principal: &Principal, kvno: u32, keyblock: &KeyblockRef)
        ensures
            final(self).entries@.len() == old(self).entries@.len() + 1,
            forall|i: int|
                0 <= i < old(self).entries@.len() ==> final(self).entries@[i] == old(
                    self,
                ).entries@[i],
            ({
                let e = final(self).entries@.last();
                &&& components_view(e.principal_components@) == principal.spec_components()
                &&& e.principal_realm@ == principal.realm@
                &&& e.kvno == kvno
                &&& e.key_enctype == keyblock.enctype
                &&& e.key_contents@ == keyblock.contents@
            }),
            final(self).ctx == old(self).ctx,
            final(self).kind == old(self).kind,
            final(self).residual == old(self).residual,
    {
        let entry = KeytabEntry {
            principal_components: copy_components(&principal.components),
            principal_realm: crate::copy_bytes(&principal.realm),
            kvno,
            key_enctype: keyblock.enctype,
            key_contents: crate::copy_bytes(keyblock.contents),
        };
        self.entries.push(entry);
    }
}

} // verus!
