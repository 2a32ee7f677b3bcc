//! Key material: an encryption key of a given algorithm, either freshly
//! allocated or derived deterministically from a password and a salt.

use vstd::prelude::*;

use crate::krb5::{Error, KrbContext, KrbData, StringName};

verus! {

/// A 256-bit AES-CTS-HMAC-SHA1 scheme, the concrete algorithm exercised
/// by key derivation here.
pub const AES256_CTS_HMAC_SHA1_96: i32 = 18;

/// The largest byte length a Kerberos buffer may have: lengths travel in a
/// 32-bit signed field.
pub const MAX_KRB_LENGTH: usize = 0x7fff_ffff;

/// The byte length of a key derived for the given algorithm: 32 bytes for
/// the 256-bit scheme, 16 bytes for everything else this model knows.
pub open spec fn derived_key_len(enctype: i32) -> nat {
    if enctype == AES256_CTS_HMAC_SHA1_96 {
        32
    } else {
        16
    }
}

/// One byte of a derived key: password and salt bytes are cycled over the
/// key length and mixed with the position.
pub open spec fn derive_byte(password: Seq<u8>, salt: Seq<u8>, i: int) -> u8 {
    let p: u8 = if password.len() == 0 {
        0
    } else {
        password[i % (password.len() as int)]
    };
    let s: u8 = if salt.len() == 0 {
        0
    } else {
        salt[i % (salt.len() as int)]
    };
    (p ^ s) ^ ((i % 256) as u8)
}

/// The key derived from a password and a salt under the given algorithm.
/// The result is a function of the three arguments alone, which is what
/// makes generation idempotent across concurrent callers.
pub open spec fn derive_key(enctype: i32, password: Seq<u8>, salt: Seq<u8>) -> Seq<u8> {
    Seq::new(derived_key_len(enctype), |i: int| derive_byte(password, salt, i))
}

/// A reference to a Kerberos keyblock, valid only while the owning value
/// is alive.
pub struct KeyblockRef<'a> {
    pub ctx: &'a KrbContext,
    pub enctype: i32,
    pub contents: &'a Vec<u8>,
}

/// An owned Kerberos keyblock.
pub struct Keyblock<'a> {
    pub ctx: &'a KrbContext,
    pub enctype: i32,
    pub contents: Vec<u8>,
}

impl<'a> Keyblock<'a> {
    /// A keyblock's contents always fit the 32-bit length field.
    pub open spec fn wf(&self) -> bool {
        self.contents@.len() <= MAX_KRB_LENGTH
    }

    /// Create a new zero-initialized keyblock of a given size.
    /// A size beyond the 32-bit length field is reported as too long.
    pub fn new(ctx: &'a KrbContext, enctype: i32, len: u64) -> (r: Result<Self, Error>)
        ensures
            match r {
                Ok(kb) => {
                    &&& len <= MAX_KRB_LENGTH as u64
                    &&& kb.wf()
                    &&& kb.ctx == ctx
                    &&& kb.enctype == enctype
                    &&& kb.contents@ == Seq::new(len as nat, |i: int| 0u8)
                },
                Err(e) => len > MAX_KRB_LENGTH as u64 && (e matches Error::StringTooLong {
                    string_name,
                } && string_name == StringName::Keyblock),
            },
    {
        if len > MAX_KRB_LENGTH as u64 {
            return Err(Error::StringTooLong { string_name: StringName::Keyblock });
        }
        let target: usize = len as usize;
        let mut contents: Vec<u8> = Vec::new();
        let mut i: usize = 0;
        while i < target
            invariant
                0 <= i <= target,
                contents@ == Seq::new(i as nat, |j: int| 0u8),
            decreases target - i,
        {
            contents.push(0);
            proof {
                assert(contents@ =~= Seq::new((i + 1) as nat, |j: int| 0u8));
            }
            i += 1;
        }
        Ok(Keyblock { ctx, enctype, contents })
    }

    /// Derive a key from a given password under the given algorithm.
    ///
    /// `salt` may be generated using
    /// [`crate::principal::Principal::default_salt`]. The derived bytes are
    /// a function of `(enctype, password, salt)` alone: deriving twice from
    /// the same inputs yields the same key. A password longer than the
    /// 32-bit length field is reported as too long.
    pub fn from_password(
        ctx: &'a KrbContext,
        enctype: i32,
        password: &Vec<u8>,
        salt: &KrbData,
    ) -> (r: Result<Self, Error>)
        ensures
            match r {
                Ok(kb) => {
                    &&& password@.len() <= MAX_KRB_LENGTH
                    &&& kb.wf()
                    &&& kb.ctx == ctx
                    &&& kb.enctype == enctype
                    &&& kb.contents@ == derive_key(enctype, password@, salt.contents@)
                },
                Err(e) => password@.len() > MAX_KRB_LENGTH && (e matches Error::StringTooLong {
                    string_name,
                } && string_name == StringName::Password),
            },
    {
        if password.len() > MAX_KRB_LENGTH {
            return Err(Error::StringTooLong { string_name: StringName::Password });
        }
        let target: usize = if enctype == AES256_CTS_HMAC_SHA1_96 {
            32
        } else {
            16
        };
        proof {
            assert(target as nat == derived_key_len(enctype));
        }
        let mut contents: Vec<u8> = Vec::new();
        let mut i: usize = 0;
        while i < target
            invariant
                0 <= i <= target,
                target as nat == derived_key_len(enctype),
                contents@ == derive_key(enctype, password@, salt.contents@).take(i as int),
            decreases target - i,
        {
            let p: u8 = if password.len() == 0 {
                0
            } else {
                password[i % password.len()]
            };
            let s: u8 = if salt.contents.len() == 0 {
                0
            } else {
                salt.contents[i % salt.contents.len()]
            };
            let b: u8 = (p ^ s) ^ ((i % 256) as u8);
            proof {
                assert(b == derive_byte(password@, salt.contents@, i as int));
            }
            contents.push(b);
            proof {
                assert(contents@ =~= derive_key(enctype, password@, salt.contents@).take(i + 1));
            }
            i += 1;
        }
        proof {
            let k = derive_key(enctype, password@, salt.contents@);
            assert(k.take(k.len() as int) =~= k);
        }
        Ok(Keyblock { ctx, enctype, contents })
    }

    /// A mutable view of the key's raw contents. The view borrows the
    /// keyblock and cannot outlive it.
    pub fn contents_mut(&mut self) -> (r: &mut Vec<u8>)
        ensures
            *r == old(self).contents,
            final(self).contents == *final(r),
            final(self).ctx == old(self).ctx,
            final(self).enctype == old(self).enctype,
    {
        &mut self.contents
    }

    /// A borrowed view of this keyblock, valid only while `self` is.
    pub fn as_ref<'b>(&'b self) -> (r: KeyblockRef<'b>)
        ensures
            r.ctx == self.ctx,
            r.enctype == self.enctype,
            r.contents == &self.contents,
    {
        KeyblockRef { ctx: self.ctx, enctype: self.enctype, contents: &self.contents }
    }
}

/// Key derivation is deterministic: two keyblocks derived from the same
/// algorithm, password and salt hold identical bytes of identical length.
pub proof fn lemma_key_derivation_deterministic(
    a: Keyblock,
    b: Keyblock,
    enctype: i32,
    password: Seq<u8>,
    salt: Seq<u8>,
)
    requires
        a.contents@ == derive_key(enctype, password, salt),
        b.contents@ == derive_key(enctype, password, salt),
    ensures
        a.contents@ == b.contents@,
        a.contents@.len() == b.contents@.len(),
{
}

} // verus!
