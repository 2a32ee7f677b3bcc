//! The idempotent, lock-free credential cache.
//!
//! The cache fronts a remote key/value record (a namespaced secret
//! object). A lookup that hits is answered from the last-loaded state and
//! writes nothing. A miss runs a caller-supplied generator; on success
//! the bytes are saved with a merge patch under a fixed field-manager
//! identity, the local state is replaced by the server's resulting
//! record, and the key is looked up again. On generator failure nothing
//! is persisted: there is no negative caching.
//!
//! The remote calls (the initial load and the patch) are transport work
//! and happen outside this library; each function here takes their
//! outcome as an argument and is verified for every value of it. There is
//! no locking, local or remote: two callers racing on the same missing
//! key both generate, which is why the generator must be idempotent — see
//! [`lemma_idempotent_generator_race`].

use vstd::prelude::*;

verus! {

/// A reference to the backing record: a namespaced name.
#[derive(Debug)]
pub struct SecretReference {
    pub namespace: Vec<u8>,
    pub name: Vec<u8>,
}

impl SecretReference {
    /// An identical copy of this reference.
    pub fn duplicate(&self) -> (r: Self)
        ensures
            r.namespace@ == self.namespace@,
            r.name@ == self.name@,
    {
        SecretReference {
            namespace: crate::copy_bytes(&self.namespace),
            name: crate::copy_bytes(&self.name),
        }
    }
}

/// One key/value pair of the backing record.
pub struct SecretEntry {
    pub key: Vec<u8>,
    pub value: Vec<u8>,
}

/// No two entries share a key.
pub open spec fn unique_keys(s: Seq<SecretEntry>) -> bool {
    forall|i: int, j: int|
        0 <= i < j < s.len() ==> (#[trigger] s[i]).key@ != (#[trigger] s[j]).key@
}

/// The mapping a list of entries represents.
pub open spec fn record_map(s: Seq<SecretEntry>) -> Map<Seq<u8>, Seq<u8>>
    decreases s.len(),
{
    if s.len() == 0 {
        Map::empty()
    } else {
        record_map(s.drop_last()).insert(s.last().key@, s.last().value@)
    }
}

proof fn lemma_record_map_index(s: Seq<SecretEntry>, k: Seq<u8>)
    requires
        unique_keys(s),
    ensures
        record_map(s).contains_key(k) <==> exists|i: int|
            0 <= i < s.len() && (#[trigger] s[i]).key@ == k,
        forall|i: int|
            0 <= i < s.len() && (#[trigger] s[i]).key@ == k ==> record_map(s)[k] == s[i].value@,
    decreases s.len(),
{
    if s.len() == 0 {
    } else {
        let d = s.drop_last();
        assert(unique_keys(d)) by {
            assert(forall|i: int, j: int|
                0 <= i < j < d.len() ==> (#[trigger] d[i]).key@ != (#[trigger] d[j]).key@) by {
                assert(forall|i: int| 0 <= i < d.len() ==> d[i] == s[i]);
            }
        }
        lemma_record_map_index(d, k);
        assert(s.last() == s[s.len() - 1]);
        assert(forall|i: int| 0 <= i < d.len() ==> d[i] == s[i]);
        if k == s.last().key@ {
            assert(record_map(s).contains_key(k));
            assert(record_map(s)[k] == s.last().value@);
            assert(forall|i: int|
                0 <= i < s.len() - 1 ==> (#[trigger] s[i]).key@ != s[s.len() - 1].key@);
        } else {
            assert(record_map(s).contains_key(k) <==> record_map(d).contains_key(k));
        }
    }
}

proof fn lemma_record_map_push(s: Seq<SecretEntry>, e: SecretEntry)
    ensures
        record_map(s.push(e)) == record_map(s).insert(e.key@, e.value@),
{
    assert(s.push(e).drop_last() =~= s);
    assert(s.push(e).last() == e);
}

proof fn lemma_record_map_update(s: Seq<SecretEntry>, i: int, e: SecretEntry)
    requires
        unique_keys(s),
        0 <= i < s.len(),
        e.key@ == s[i].key@,
    ensures
        record_map(s.update(i, e)) == record_map(s).insert(e.key@, e.value@),
    decreases s.len(),
{
    let su = s.update(i, e);
    if i == s.len() - 1 {
        assert(su.drop_last() =~= s.drop_last());
        assert(su.last() == e);
    } else {
        let d = s.drop_last();
        assert(unique_keys(d)) by {
            assert(forall|i2: int| 0 <= i2 < d.len() ==> d[i2] == s[i2]);
        }
        assert(su.last() == s.last());
        assert(su.drop_last() =~= d.update(i, e));
        assert(d[i] == s[i]);
        lemma_record_map_update(d, i, e);
        let lk = s.last().key@;
        let lv = s.last().value@;
        assert(e.key@ != lk) by {
            assert(s[i].key@ != s[s.len() - 1].key@);
        }
        assert(record_map(d).insert(e.key@, e.value@).insert(lk, lv) =~= record_map(d).insert(
            lk,
            lv,
        ).insert(e.key@, e.value@));
    }
}

/// The last-loaded state of the backing record: a list of entries with
/// pairwise distinct keys, read as a mapping from key to bytes.
pub struct SecretRecord {
    pub entries: Vec<SecretEntry>,
}

impl SecretRecord {
    /// Keys are unique within the record.
    pub open spec fn wf(&self) -> bool {
        unique_keys(self.entries@)
    }

    /// The mapping this record represents.
    pub open spec fn spec_map(&self) -> Map<Seq<u8>, Seq<u8>> {
        record_map(self.entries@)
    }

    /// An empty record.
    pub fn new() -> (r: Self)
        ensures
            r.wf(),
            r.spec_map() == Map::<Seq<u8>, Seq<u8>>::empty(),
    {
        SecretRecord { entries: Vec::new() }
    }

    /// The bytes stored under `key`, if any.
    pub fn get<'s>(&'s self, key: &Vec<u8>) -> (r: Option<&'s Vec<u8>>)
        requires
            self.wf(),
        ensures
            match r {
                Some(v) => self.spec_map().contains_key(key@) && v@ == self.spec_map()[key@],
                None => !self.spec_map().contains_key(key@),
            },
    {
        proof {
            lemma_record_map_index(self.entries@, key@);
        }
        let mut i: usize = 0;
        while i < self.entries.len()
            invariant
                0 <= i <= self.entries@.len(),
                self.wf(),
                forall|j: int| 0 <= j < i ==> (#[trigger] self.entries@[j]).key@ != key@,
            decreases self.entries@.len() - i,
        {
            if crate::bytes_equal(&self.entries[i].key, key) {
                proof {
                    lemma_record_map_index(self.entries@, key@);
                }
                return Some(&self.entries[i].value);
            }
            i += 1;
        }
        proof {
            lemma_record_map_index(self.entries@, key@);
        }
        None
    }

    /// Store `value` under `key`, adding the entry or overwriting the
    /// value already there; every other key is untouched.
    pub fn set(&mut self, key: Vec<u8>, value: Vec<u8>)
        requires
            old(self).wf(),
        ensures
            final(self).wf(),
            final(self).spec_map() == old(self).spec_map().insert(key@, value@),
    {
        let ghost s0 = self.entries@;
        let mut i: usize = 0;
        while i < self.entries.len()
            invariant
                0 <= i <= self.entries@.len(),
                self.entries@ == s0,
                old(self).entries@ == s0,
                unique_keys(s0),
                forall|j: int| 0 <= j < i ==> (#[trigger] s0[j]).key@ != key@,
            decreases self.entries@.len() - i,
        {
            if crate::bytes_equal(&self.entries[i].key, &key) {
                proof {
                    lemma_record_map_update(s0, i as int, SecretEntry { key, value });
                    assert(unique_keys(s0.update(i as int, SecretEntry { key, value }))) by {
                        let su = s0.update(i as int, SecretEntry { key, value });
                        assert(forall|a: int|
                            0 <= a < su.len() ==> (#[trigger] su[a]).key@ == s0[a].key@);
                    }
                }
                self.entries.set(i, SecretEntry { key, value });
                return ;
            }
            i += 1;
        }
        proof {
            lemma_record_map_push(s0, SecretEntry { key, value });
            assert(unique_keys(s0.push(SecretEntry { key, value }))) by {
                let su = s0.push(SecretEntry { key, value });
                assert(forall|a: int| 0 <= a < s0.len() ==> su[a] == s0[a]);
                assert(su[su.len() - 1].key@ == key@);
            }
        }
        self.entries.push(SecretEntry { key, value });
    }
}

/// What the merge patch does on the server: fields of the patch replace
/// or add to the base record; everything else is kept.
pub open spec fn merge_patch(
    base: Map<Seq<u8>, Seq<u8>>,
    patch: Map<Seq<u8>, Seq<u8>>,
) -> Map<Seq<u8>, Seq<u8>> {
    base.union_prefer_right(patch)
}

/// Errors of the credential cache. None of them carries the credential
/// value itself, only the identity of the backing record (and the key,
/// for the save path).
#[derive(Debug)]
pub enum Error {
    /// The initial state of the backing record could not be loaded; the
    /// cache does not create the record itself.
    GetInitialCache { cache_ref: SecretReference },
    /// Saving a generated credential failed: the merge patch was rejected
    /// or did not reach the server.
    SaveToCache { key: Vec<u8>, cache_ref: SecretReference },
    /// The server accepted the patch but its resulting record does not
    /// hold the key: a consistency violation of the backing store.
    SavedKeyNotFound { key: Vec<u8>, cache_ref: SecretReference },
}

/// Read-only context handed to a generator, useful for diagnostics.
pub struct Ctx {
    pub cache_ref: SecretReference,
}

/// The decision of [`CredentialCache::get_or_insert_start`]: either the
/// cached bytes, or the duty to run the generator.
pub enum GetOrInsert<'s> {
    /// The key is present: these are its bytes, straight from the
    /// last-loaded state. Nothing was, or needs to be, written.
    Hit(&'s Vec<u8>),
    /// The key is absent: run the generator, then save its output with
    /// [`CredentialCache::make_patch`] and feed the server's answer to
    /// [`CredentialCache::get_or_insert_commit`].
    MustGenerate(Ctx),
}

/// What the start step decides, as a function of the record alone:
/// the cached bytes for a present key, nothing for an absent one.
pub open spec fn start_spec(state: Map<Seq<u8>, Seq<u8>>, key: Seq<u8>) -> Option<Seq<u8>> {
    if state.contains_key(key) {
        Some(state[key])
    } else {
        None
    }
}

/// The field-manager identity every merge patch is tagged with, so that
/// repeated patches from this component compose with other managers'
/// fields instead of clobbering them.
pub open spec fn field_manager_spec() -> Seq<u8> {
    seq![115u8, 101u8, 99u8, 114u8, 101u8, 116u8, 115u8, 46u8, 115u8, 116u8, 97u8, 99u8, 107u8,
        97u8, 98u8, 108u8, 101u8, 46u8, 116u8, 101u8, 99u8, 104u8, 47u8, 107u8, 114u8, 98u8, 53u8,
        45u8, 112u8, 114u8, 111u8, 118u8, 105u8, 115u8, 105u8, 111u8, 110u8, 45u8, 107u8, 101u8,
        121u8, 116u8, 97u8, 98u8]
}

#[verifier::rlimit(50)]
fn field_manager_bytes() -> (r: Vec<u8>)
    ensures
        r@ == field_manager_spec(),
{
    let mut v: Vec<u8> = Vec::new();
    v.push(115);
    v.push(101);
    v.push(99);
    v.push(114);
    v.push(101);
    v.push(116);
    v.push(115);
    v.push(46);
    v.push(115);
    v.push(116);
    v.push(97);
    v.push(99);
    v.push(107);
    v.push(97);
    v.push(98);
    v.push(108);
    v.push(101);
    v.push(46);
    v.push(116);
    v.push(101);
    v.push(99);
    v.push(104);
    v.push(47);
    v.push(107);
    v.push(114);
    v.push(98);
    v.push(53);
    v.push(45);
    v.push(112);
    v.push(114);
    v.push(111);
    v.push(118);
    v.push(105);
    v.push(115);
    v.push(105);
    v.push(111);
    v.push(110);
    v.push(45);
    v.push(107);
    v.push(101);
    v.push(121);
    v.push(116);
    v.push(97);
    v.push(98);
    proof {
        assert(v@ =~= field_manager_spec());
    }
    v
}

/// The merge patch a save issues: a single-key record update, tagged with
/// the fixed field-manager identity.
pub struct SecretPatch {
    pub field_manager: Vec<u8>,
    pub update: SecretRecord,
}

/// The cache over one backing record.
pub struct CredentialCache {
    /// A diagnostic name for this cache.
    pub name: Vec<u8>,
    /// Which remote record backs this cache.
    pub cache_ref: SecretReference,
    /// The last-loaded state of the backing record.
    pub current_state: SecretRecord,
}

impl CredentialCache {
    /// The record state is well-formed.
    pub open spec fn wf(&self) -> bool {
        self.current_state.wf()
    }

    /// The mapping the cache currently holds.
    pub open spec fn spec_state(&self) -> Map<Seq<u8>, Seq<u8>> {
        self.current_state.spec_map()
    }

    /// Build a cache over the backing record `cache_ref`, from the
    /// outcome of loading that record's current state. The cache does
    /// not create the record: a failed or absent load is reported as
    /// [`Error::GetInitialCache`].
    pub fn new(name: Vec<u8>, cache_ref: SecretReference, loaded: Option<SecretRecord>) -> (r:
        Result<Self, Error>)
        requires
            loaded matches Some(s) ==> s.wf(),
        ensures
            match r {
                Ok(c) => {
                    &&& loaded matches Some(s) && c.spec_state() == s.spec_map()
                    &&& c.wf()
                    &&& c.name@ == name@
                    &&& c.cache_ref.namespace@ == cache_ref.namespace@
                    &&& c.cache_ref.name@ == cache_ref.name@
                },
                Err(e) => loaded is None && (e matches Error::GetInitialCache { cache_ref: cr }
                    && cr.namespace@ == cache_ref.namespace@ && cr.name@ == cache_ref.name@),
            },
    {
        match loaded {
            Some(state) => Ok(CredentialCache { name, cache_ref, current_state: state }),
            None => Err(Error::GetInitialCache { cache_ref }),
        }
    }

    /// The bytes cached under `key`, if any. Purely a read.
    pub fn get_if_present<'s>(&'s self, key: &Vec<u8>) -> (r: Option<&'s Vec<u8>>)
        requires
            self.wf(),
        ensures
            match r {
                Some(v) => start_spec(self.spec_state(), key@) == Some(v@),
                None => start_spec(self.spec_state(), key@) is None,
            },
    {
        self.current_state.get(key)
    }

    /// The first step of a lookup: a present key is answered from the
    /// last-loaded state with no remote call and no write; an absent key
    /// obliges the caller to run the generator.
    pub fn get_or_insert_start<'s>(&'s self, key: &Vec<u8>) -> (r: GetOrInsert<'s>)
        requires
            self.wf(),
        ensures
            match r {
                GetOrInsert::Hit(v) => start_spec(self.spec_state(), key@) == Some(v@),
                GetOrInsert::MustGenerate(c) => start_spec(self.spec_state(), key@) is None
                    && c.cache_ref.namespace@ == self.cache_ref.namespace@ && c.cache_ref.name@
                    == self.cache_ref.name@,
            },
    {
        match self.current_state.get(key) {
            Some(v) => GetOrInsert::Hit(v),
            None => GetOrInsert::MustGenerate(Ctx { cache_ref: self.cache_ref.duplicate() }),
        }
    }

    /// The merge patch that saves `value` under `key`: it names only that
    /// key, so concurrent patches for other keys compose with it, and it
    /// carries the fixed field-manager identity.
    pub fn make_patch(&self, key: &Vec<u8>, value: &Vec<u8>) -> (r: SecretPatch)
        ensures
            r.field_manager@ == field_manager_spec(),
            r.update.wf(),
            r.update.spec_map() == Map::<Seq<u8>, Seq<u8>>::empty().insert(key@, value@),
    {
        let mut update = SecretRecord::new();
        update.set(crate::copy_bytes(key), crate::copy_bytes(value));
        SecretPatch { field_manager: field_manager_bytes(), update }
    }

    /// The last step of a lookup that generated: absorb the server's
    /// answer to the patch.
    ///
    /// A rejected patch is reported as [`Error::SaveToCache`] and changes
    /// nothing locally. On success the local state becomes the server's
    /// resulting record — which, by merge semantics, reflects at least
    /// this caller's own write — and `key` is looked up again in it: its
    /// bytes are returned, and their absence is the consistency violation
    /// [`Error::SavedKeyNotFound`].
    pub fn get_or_insert_commit(&mut self, key: &Vec<u8>, patch_response: Result<
        SecretRecord,
        (),
    >) -> (r: Result<Vec<u8>, Error>)
        requires
            old(self).wf(),
            patch_response matches Ok(s) ==> s.wf(),
        ensures
            final(self).name@ == old(self).name@,
            final(self).cache_ref.namespace@ == old(self).cache_ref.namespace@,
            final(self).cache_ref.name@ == old(self).cache_ref.name@,
            final(self).wf(),
            match patch_response {
                Err(_) => {
                    &&& final(self).spec_state() == old(self).spec_state()
                    &&& r matches Err(e) && (e matches Error::SaveToCache { key: k, cache_ref }
                        && k@ == key@ && cache_ref.namespace@ == old(self).cache_ref.namespace@
                        && cache_ref.name@ == old(self).cache_ref.name@)
                },
                Ok(server) => {
                    &&& final(self).spec_state() == server.spec_map()
                    &&& match r {
                        Ok(v) => server.spec_map().contains_key(key@) && v@
                            == server.spec_map()[key@],
                        Err(e) => !server.spec_map().contains_key(key@) && (e matches
                        Error::SavedKeyNotFound { key: k, cache_ref } && k@ == key@
                            && cache_ref.namespace@ == old(self).cache_ref.namespace@
                            && cache_ref.name@ == old(self).cache_ref.name@)
                    }
                },
            },
    {
        match patch_response {
            Err(_) => Err(
                Error::SaveToCache { key: crate::copy_bytes(key), cache_ref: self.cache_ref.duplicate() },
            ),
            Ok(server) => {
                self.current_state = server;
                match self.current_state.get(key) {
                    Some(v) => Ok(crate::copy_bytes(v)),
                    None => Err(
                        Error::SavedKeyNotFound {
                            key: crate::copy_bytes(key),
                            cache_ref: self.cache_ref.duplicate(),
                        },
                    ),
                }
            },
        }
    }
}

/// Apply a sequence of merge patches to a base record, oldest first:
/// the states a backing record moves through as concurrent savers land.
pub open spec fn apply_patches(
    base: Map<Seq<u8>, Seq<u8>>,
    patches: Seq<Map<Seq<u8>, Seq<u8>>>,
) -> Map<Seq<u8>, Seq<u8>>
    decreases patches.len(),
{
    if patches.len() == 0 {
        base
    } else {
        merge_patch(apply_patches(base, patches.drop_last()), patches.last())
    }
}

/// The idempotent-generator race property. Start from a record where
/// `key` is absent (or already carries `value`), and let any number of
/// concurrent callers land merge patches, each of which either does not
/// touch `key` or — because the generator is idempotent — writes exactly
/// `value` under it. Then every state the record can reach maps `key` to
/// `value` or lacks it entirely: a caller that hits reads `value`, and a
/// caller whose own patch landed reads `value` back out of the merge.
/// Two distinct successful values can never be observed.
pub proof fn lemma_idempotent_generator_race(
    base: Map<Seq<u8>, Seq<u8>>,
    patches: Seq<Map<Seq<u8>, Seq<u8>>>,
    key: Seq<u8>,
    value: Seq<u8>,
)
    requires
        base.contains_key(key) ==> base[key] == value,
        forall|i: int|
            0 <= i < patches.len() ==> ((#[trigger] patches[i]).contains_key(key) ==> patches[i][key]
                == value),
    ensures
        apply_patches(base, patches).contains_key(key) ==> apply_patches(base, patches)[key]
            == value,
        start_spec(apply_patches(base, patches), key) matches Some(observed) ==> observed == value,
    decreases patches.len(),
{
    if patches.len() == 0 {
    } else {
        lemma_idempotent_generator_race(base, patches.drop_last(), key, value);
        assert(patches[patches.len() - 1] == patches.last());
    }
}

/// A saver's own write is visible to it: the server's record after
/// merging a patch that sets `key` to `value` holds exactly `value`
/// under `key`, whatever else the record held — so the commit step
/// returns `value` to the caller that saved it.
pub proof fn lemma_commit_reads_own_write(
    server_before: Map<Seq<u8>, Seq<u8>>,
    key: Seq<u8>,
    value: Seq<u8>,
)
    ensures
        merge_patch(server_before, Map::<Seq<u8>, Seq<u8>>::empty().insert(key, value)).contains_key(
            key,
        ),
        merge_patch(server_before, Map::<Seq<u8>, Seq<u8>>::empty().insert(key, value))[key]
            == value,
{
}

/// The hit path is read-only: when `key` is present, the start step's
/// decision is the cached bytes themselves — no generator runs, no patch
/// is built, and the step takes the cache by shared borrow, so the local
/// state cannot change either.
pub proof fn lemma_hit_path_read_only(state: Map<Seq<u8>, Seq<u8>>, key: Seq<u8>)
    requires
        state.contains_key(key),
    ensures
        start_spec(state, key) == Some(state[key]),
{
}

/// No negative caching: the decision to run the generator is a function
/// of the current record alone, and a failed generation performs no
/// state transition (only a successful save changes the record, through
/// the commit step). So after a failure the record still lacks `key`,
/// and the next lookup runs the generator again instead of remembering
/// the failure.
pub proof fn lemma_no_negative_caching(state: Map<Seq<u8>, Seq<u8>>, key: Seq<u8>)
    requires
        !state.contains_key(key),
    ensures
        start_spec(state, key) is None,
{
}

} // verus!
