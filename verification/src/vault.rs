//! The key vault: per-object symmetric key material, protected at rest
//! under a password-derived key-encrypting key (KEK) and kept by object
//! identifier.
//!
//! The KEK is a plain unsalted hash of the password. That is a known
//! cryptographic weakness of the stored format, kept for compatibility
//! with existing key stores; adding a salt would break recovery of keys
//! already written.
//!
//! A record is written at most once per identifier: the vault never
//! overwrites or re-keys existing material.

use vstd::prelude::*;
use vstd::string::StringSliceAdditionalSpecFns;
use crate::StorageError;
use crate::bytes::append_bytes;
use crate::bytes::copy_range;
use crate::crypto::aes256_cbc_dec;
use crate::crypto::aes256_cbc_enc;
use crate::crypto::encrypt_aes256_cbc;
use crate::crypto::decrypt_aes256_cbc;
use crate::crypto::sha256;
use crate::crypto::sha256_of;
use crate::platform::random_bytes_16;
use crate::textform::str_equal;

verus! {

/// Symmetric key material for one object: a 16-byte key and a 16-byte IV.
pub struct KeyData {
    pub key: Vec<u8>,
    pub iv: Vec<u8>,
}

/// The mathematical content of a `KeyData`.
#[verifier::ext_equal]
pub struct KeyDataV {
    pub key: Seq<u8>,
    pub iv: Seq<u8>,
}

impl View for KeyData {
    type V = KeyDataV;

    open spec fn view(&self) -> KeyDataV {
        KeyDataV { key: self.key@, iv: self.iv@ }
    }
}

/// Well-formed key material: a 16-byte key and a 16-byte IV.
pub open spec fn key_data_wf(k: KeyDataV) -> bool {
    k.key.len() == 16 && k.iv.len() == 16
}

impl KeyData {
    pub open spec fn wf(&self) -> bool {
        key_data_wf(self@)
    }
}

/// Generates a fresh 16-byte key and 16-byte IV from the secure random
/// source.
pub fn generate_key_iv() -> (r: KeyData)
    ensures
        r.wf(),
{
    KeyData { key: random_bytes_16(), iv: random_bytes_16() }
}

/// The key-encrypting key derived from a password: a deterministic
/// one-way hash, 32 bytes.
pub open spec fn kek_of(password: Seq<u8>) -> Seq<u8> {
    sha256_of(password)
}

/// Derives the 32-byte KEK from a password.
pub fn derive_kek(password: &str) -> (r: Vec<u8>)
    ensures
        r@ == kek_of(password.spec_bytes()),
        r@.len() == 32,
{
    sha256(password.as_bytes())
}

/// The stored shape of one protected key: the material's own IV, then the
/// key bytes sealed under the KEK with that IV.
pub open spec fn sealed_key_blob(kek: Seq<u8>, material: KeyDataV) -> Seq<u8> {
    material.iv + aes256_cbc_enc(kek, material.iv, material.key)
}

/// What unsealing a stored blob under some KEK yields: `None` where the
/// cipher rejects the payload or the recovered key is not 16 bytes.
pub open spec fn unseal_key(kek: Seq<u8>, blob: Seq<u8>) -> Option<KeyDataV> {
    if blob.len() < 16 {
        None
    } else {
        let iv = blob.take(16);
        let ct = blob.skip(16);
        match aes256_cbc_dec(kek, iv, ct) {
            None => None,
            Some(k) => if k.len() == 16 {
                Some(KeyDataV { key: k, iv: iv })
            } else {
                None
            },
        }
    }
}

/// Seals key material under the password's KEK, prepending the IV.
pub fn encrypt_key_data(key_data: &KeyData, password: &str) -> (r: Vec<u8>)
    requires
        key_data.wf(),
    ensures
        r@ == sealed_key_blob(kek_of(password.spec_bytes()), key_data@),
        unseal_key(kek_of(password.spec_bytes()), r@) == Some(key_data@),
        r@.len() == 48,
{
    let kek = derive_kek(password);
    let ct = encrypt_aes256_cbc(kek.as_slice(), key_data.iv.as_slice(), key_data.key.as_slice());
    let mut out = copy_range(&key_data.iv, 0, key_data.iv.len());
    append_bytes(&mut out, &ct);
    proof {
        assert(key_data.iv@.subrange(0, 16) =~= key_data@.iv);
        assert(out@ =~= sealed_key_blob(kek_of(password.spec_bytes()), key_data@));
        assert(out@.take(16) =~= key_data@.iv);
        assert(out@.skip(16) =~= ct@);
    }
    out
}

/// Unseals a stored blob under the password's KEK. A payload the cipher
/// rejects, or a recovered key that is not exactly 16 bytes, is reported
/// as key corruption — a wrong password lands here, never in a panic.
pub fn decrypt_key_data(encrypted_key: &Vec<u8>, password: &str) -> (r: Result<
    KeyData,
    StorageError,
>)
    ensures
        match unseal_key(kek_of(password.spec_bytes()), encrypted_key@) {
            Some(kv) => r matches Ok(kd) && kd@ == kv && kd.wf(),
            None => r == Err::<KeyData, StorageError>(StorageError::KeyCorruption),
        },
{
    if encrypted_key.len() < 16 {
        return Err(StorageError::KeyCorruption);
    }
    let kek = derive_kek(password);
    let iv = copy_range(encrypted_key, 0, 16);
    let ct = copy_range(encrypted_key, 16, encrypted_key.len());
    proof {
        assert(iv@ =~= encrypted_key@.take(16));
        assert(ct@ =~= encrypted_key@.skip(16));
    }
    match decrypt_aes256_cbc(kek.as_slice(), iv.as_slice(), ct.as_slice()) {
        None => Err(StorageError::KeyCorruption),
        Some(key) => {
            if key.len() != 16 {
                Err(StorageError::KeyCorruption)
            } else {
                Ok(KeyData { key, iv })
            }
        },
    }
}

/// One persisted vault entry: an identifier and the sealed key blob. The
/// ghost fields record which material the blob protects and under which
/// KEK it was sealed.
pub struct VaultRecord {
    pub file_id: String,
    pub blob: Vec<u8>,
    pub material: Ghost<KeyDataV>,
    pub kek: Ghost<Seq<u8>>,
}

/// The mathematical content of a vault entry.
#[verifier::ext_equal]
pub struct VaultRecV {
    pub file_id: Seq<char>,
    pub blob: Seq<u8>,
    pub material: KeyDataV,
    pub kek: Seq<u8>,
}

impl View for VaultRecord {
    type V = VaultRecV;

    open spec fn view(&self) -> VaultRecV {
        VaultRecV { file_id: self.file_id@, blob: self.blob@, material: self.material@, kek: self.kek@ }
    }
}

/// A well-formed entry: the blob is the sealing of its material under its
/// KEK, and unsealing it under that KEK gives the material back.
pub open spec fn vault_rec_wf(rec: VaultRecV) -> bool {
    &&& key_data_wf(rec.material)
    &&& rec.blob == sealed_key_blob(rec.kek, rec.material)
    &&& unseal_key(rec.kek, rec.blob) == Some(rec.material)
}

/// The first entry for an identifier, if any.
pub open spec fn vault_find(s: Seq<VaultRecV>, id: Seq<char>) -> Option<VaultRecV>
    decreases s.len(),
{
    if s.len() == 0 {
        None
    } else if s[0].file_id == id {
        Some(s[0])
    } else {
        vault_find(s.drop_first(), id)
    }
}

pub proof fn lemma_vault_find_push(s: Seq<VaultRecV>, rec: VaultRecV, id: Seq<char>)
    ensures
        id == rec.file_id && vault_find(s, id) is None ==> vault_find(s.push(rec), id) == Some(rec),
        id != rec.file_id ==> vault_find(s.push(rec), id) == vault_find(s, id),
        vault_find(s, id) is Some ==> vault_find(s.push(rec), id) == vault_find(s, id),
    decreases s.len(),
{
    if s.len() == 0 {
        assert(s.push(rec)[0] == rec);
        assert(s.push(rec).drop_first() =~= Seq::<VaultRecV>::empty());
    } else {
        assert(s.push(rec)[0] == s[0]);
        assert(s.push(rec).drop_first() =~= s.drop_first().push(rec));
        lemma_vault_find_push(s.drop_first(), rec, id);
    }
}

/// A well-formed vault: every entry well-formed, identifiers distinct.
pub open spec fn vault_wf(s: Seq<VaultRecV>) -> bool {
    &&& forall|i: int| 0 <= i < s.len() ==> vault_rec_wf(#[trigger] s[i])
    &&& forall|i: int, j: int| 0 <= i < j < s.len() ==> s[i].file_id != s[j].file_id
}

/// The key vault: the in-memory image of the persisted key store. It is
/// read fully, mutated, and handed back whole to whatever persists it.
pub struct KeyVault {
    records: Vec<VaultRecord>,
}

impl View for KeyVault {
    type V = Seq<VaultRecV>;

    closed spec fn view(&self) -> Seq<VaultRecV> {
        Seq::new(self.records@.len(), |i: int| self.records@[i]@)
    }
}

impl KeyVault {
    pub open spec fn wf(&self) -> bool {
        vault_wf(self@)
    }

    /// An empty vault.
    pub fn new() -> (r: KeyVault)
        ensures
            r.wf(),
            r@ == Seq::<VaultRecV>::empty(),
    {
        let v = KeyVault { records: Vec::new() };
        proof {
            assert(v@ =~= Seq::<VaultRecV>::empty());
        }
        v
    }

    /// The position of the record for `file_id`, if one exists.
    fn find_index(&self, file_id: &str) -> (r: Option<usize>)
        ensures
            match r {
                Some(i) => i < self@.len() && self@[i as int].file_id == file_id@
                    && vault_find(self@, file_id@) == Some(self@[i as int]),
                None => vault_find(self@, file_id@) is None,
            },
    {
        let ghost s = self@;
        proof {
            assert(s.skip(0) =~= s);
        }
        let mut i: usize = 0;
        while i < self.records.len()
            invariant
                i <= s.len(),
                s.len() == self.records@.len(),
                s == self@,
                forall|j: int| 0 <= j < i ==> s[j].file_id != file_id@,
                vault_find(s.skip(i as int), file_id@) == vault_find(s, file_id@),
            decreases s.len() - i,
        {
            proof {
                assert(s.skip(i as int)[0] == s[i as int]);
                assert(s.skip(i as int).drop_first() =~= s.skip(i as int + 1));
            }
            if str_equal(self.records[i].file_id.as_str(), file_id) {
                return Some(i);
            }
            i = i + 1;
        }
        proof {
            assert(s.skip(s.len() as int) =~= Seq::<VaultRecV>::empty());
        }
        None
    }

    /// Writes the sealed key for `file_id` into the store. If a record for
    /// the identifier already exists the call is a silent no-op: the vault
    /// is append-only per identifier.
    pub fn save_encrypted_key_to_store(&mut self, key_data: &KeyData, password: &str, file_id: &str)
        requires
            old(self).wf(),
            key_data.wf(),
        ensures
            final(self).wf(),
            vault_find(old(self)@, file_id@) is Some ==> final(self)@ == old(self)@,
            vault_find(old(self)@, file_id@) is None ==> final(self)@ == old(self)@.push(
                VaultRecV {
                    file_id: file_id@,
                    blob: sealed_key_blob(kek_of(password.spec_bytes()), key_data@),
                    material: key_data@,
                    kek: kek_of(password.spec_bytes()),
                },
            ),
    {
        if let Some(_) = self.find_index(file_id) {
            return;
        }
        let blob = encrypt_key_data(key_data, password);
        let id = file_id.to_owned();
        let ghost kekv = kek_of(password.spec_bytes());
        let rec = VaultRecord {
            file_id: id,
            blob,
            material: Ghost(key_data@),
            kek: Ghost(kekv),
        };
        let ghost oldv = self@;
        self.records.push(rec);
        proof {
            assert(self@ =~= oldv.push(rec@));
            assert(vault_wf(self@)) by {
                assert(forall|i: int| 0 <= i < oldv.len() ==> self@[i] == oldv[i]);
                assert(vault_rec_wf(rec@));
                assert forall|i: int| 0 <= i < self@.len() implies vault_rec_wf(#[trigger] self@[i]) by {
                    if i < oldv.len() {
                        assert(vault_rec_wf(oldv[i]));
                    }
                }
                assert forall|i: int, j: int| 0 <= i < j < self@.len() implies self@[i].file_id
                    != self@[j].file_id by {
                    if j == self@.len() - 1 {
                        lemma_vault_find_none_means_absent(oldv, file_id@);
                    }
                }
            }
        }
    }

    /// Looks the identifier up and unseals its record under the password's
    /// KEK. With the password the record was written under, the original
    /// material comes back exactly.
    pub fn load_and_decrypt_key(&self, password: &str, file_id: &str) -> (r: Result<
        KeyData,
        StorageError,
    >)
        requires
            self.wf(),
        ensures
            vault_find(self@, file_id@) is None ==> r == Err::<KeyData, StorageError>(
                StorageError::KeyNotFound,
            ),
            vault_find(self@, file_id@) matches Some(rec) ==> match unseal_key(
                kek_of(password.spec_bytes()),
                rec.blob,
            ) {
                Some(kv) => r matches Ok(kd) && kd@ == kv && kd.wf(),
                None => r == Err::<KeyData, StorageError>(StorageError::KeyCorruption),
            },
            (vault_find(self@, file_id@) matches Some(rec) && rec.kek == kek_of(
                password.spec_bytes(),
            )) ==> (r matches Ok(kd) && kd@ == vault_find(self@, file_id@).unwrap().material),
    {
        match self.find_index(file_id) {
            None => Err(StorageError::KeyNotFound),
            Some(i) => {
                let r = decrypt_key_data(&self.records[i].blob, password);
                proof {
                    let rec = self@[i as int];
                    assert(self.records@[i as int].blob@ == rec.blob);
                    if rec.kek == kek_of(password.spec_bytes()) {
                        assert(unseal_key(rec.kek, rec.blob) == Some(rec.material));
                    }
                }
                r
            },
        }
    }

    /// Loads the material for `file_id`, creating and storing fresh
    /// material if no record exists yet. Once a record exists, generation
    /// is skipped forever: the vault never re-keys.
    pub fn get_or_create(&mut self, file_id: &str, password: &str) -> (r: Result<
        KeyData,
        StorageError,
    >)
        requires
            old(self).wf(),
        ensures
            final(self).wf(),
            vault_find(old(self)@, file_id@) is Some ==> final(self)@ == old(self)@,
            vault_find(old(self)@, file_id@) matches Some(rec) ==> match unseal_key(
                kek_of(password.spec_bytes()),
                rec.blob,
            ) {
                Some(kv) => r matches Ok(kd) && kd@ == kv && kd.wf(),
                None => r == Err::<KeyData, StorageError>(StorageError::KeyCorruption),
            },
            (vault_find(old(self)@, file_id@) matches Some(rec) && rec.kek == kek_of(
                password.spec_bytes(),
            )) ==> (r matches Ok(kd) && kd@ == vault_find(old(self)@, file_id@).unwrap().material),
            vault_find(old(self)@, file_id@) is None ==> (r matches Ok(kd) && kd.wf()
                && final(self)@ == old(self)@.push(
                VaultRecV {
                    file_id: file_id@,
                    blob: sealed_key_blob(kek_of(password.spec_bytes()), kd@),
                    material: kd@,
                    kek: kek_of(password.spec_bytes()),
                },
            )),
            r matches Ok(kd) ==> (vault_find(final(self)@, file_id@) matches Some(rec)
                && unseal_key(kek_of(password.spec_bytes()), rec.blob) == Some(kd@)),
            vault_find(old(self)@, file_id@) is None ==> (r matches Ok(kd) && vault_find(
                final(self)@,
                file_id@,
            ) == Some(
                VaultRecV {
                    file_id: file_id@,
                    blob: sealed_key_blob(kek_of(password.spec_bytes()), kd@),
                    material: kd@,
                    kek: kek_of(password.spec_bytes()),
                },
            )),
            vault_find(final(self)@, file_id@) is Some,
    {
        let ghost oldv = self@;
        match self.find_index(file_id) {
            Some(_) => {
                let r = self.load_and_decrypt_key(password, file_id);
                r
            },
            None => {
                let fresh = generate_key_iv();
                self.save_encrypted_key_to_store(&fresh, password, file_id);
                proof {
                    let rec = VaultRecV {
                        file_id: file_id@,
                        blob: sealed_key_blob(kek_of(password.spec_bytes()), fresh@),
                        material: fresh@,
                        kek: kek_of(password.spec_bytes()),
                    };
                    lemma_vault_find_push(oldv, rec, file_id@);
                    assert(vault_find(self@, file_id@) == Some(rec));
                    assert(self@[self@.len() - 1] == rec);
                    assert(vault_rec_wf(rec));
                }
                Ok(fresh)
            },
        }
    }

    /// How many records the vault holds.
    pub fn record_count(&self) -> (r: usize)
        ensures
            r == self@.len(),
    {
        self.records.len()
    }

    /// The stored records as (identifier, sealed blob) pairs, in order,
    /// for whatever persists the store. Blobs leave sealed; material
    /// never does.
    pub fn export_records(&self) -> (r: Vec<(String, Vec<u8>)>)
        ensures
            r@.len() == self@.len(),
            forall|i: int|
                0 <= i < r@.len() ==> #[trigger] r@[i].0@ == self@[i].file_id && r@[i].1@
                    == self@[i].blob,
    {
        let mut out: Vec<(String, Vec<u8>)> = Vec::new();
        let mut i: usize = 0;
        while i < self.records.len()
            invariant
                i <= self.records@.len(),
                self@.len() == self.records@.len(),
                out@.len() == i,
                forall|j: int|
                    0 <= j < i ==> #[trigger] out@[j].0@ == self@[j].file_id && out@[j].1@
                        == self@[j].blob,
            decreases self.records@.len() - i,
        {
            let id = self.records[i].file_id.clone();
            let blob = copy_range(&self.records[i].blob, 0, self.records[i].blob.len());
            proof {
                assert(blob@ =~= self@[i as int].blob);
            }
            out.push((id, blob));
            i = i + 1;
        }
        out
    }

    /// Re-admits a persisted record: the blob is unsealed under the
    /// password and the recovered material sealed afresh under the same
    /// KEK. A blob the password cannot unseal is refused; an identifier
    /// already present is left untouched.
    pub fn import_record(&mut self, file_id: &str, blob: &Vec<u8>, password: &str) -> (r: Result<
        (),
        StorageError,
    >)
        requires
            old(self).wf(),
        ensures
            final(self).wf(),
            unseal_key(kek_of(password.spec_bytes()), blob@) is None ==> r == Err::<
                (),
                StorageError,
            >(StorageError::KeyCorruption) && final(self)@ == old(self)@,
            unseal_key(kek_of(password.spec_bytes()), blob@) matches Some(kv) ==> r == Ok::<
                (),
                StorageError,
            >(()) && (vault_find(old(self)@, file_id@) is Some ==> final(self)@ == old(self)@)
                && (vault_find(old(self)@, file_id@) is None ==> final(self)@ == old(self)@.push(
                VaultRecV {
                    file_id: file_id@,
                    blob: sealed_key_blob(kek_of(password.spec_bytes()), kv),
                    material: kv,
                    kek: kek_of(password.spec_bytes()),
                },
            )),
    {
        let material = match decrypt_key_data(blob, password) {
            Err(e) => {
                return Err(e);
            },
            Ok(kd) => kd,
        };
        self.save_encrypted_key_to_store(&material, password, file_id);
        Ok(())
    }
}

/// When `vault_find` reports no entry, no position holds the identifier.
pub proof fn lemma_vault_find_none_means_absent(s: Seq<VaultRecV>, id: Seq<char>)
    requires
        vault_find(s, id) is None,
    ensures
        forall|i: int| 0 <= i < s.len() ==> s[i].file_id != id,
    decreases s.len(),
{
    if s.len() > 0 {
        assert(s.drop_first() =~= s.skip(1));
        lemma_vault_find_none_means_absent(s.drop_first(), id);
        assert forall|i: int| 0 <= i < s.len() implies s[i].file_id != id by {
            if i > 0 {
                assert(s.drop_first()[i - 1] == s[i]);
            }
        }
    }
}

/// A found entry sits at some position with the looked-up identifier.
pub proof fn lemma_vault_find_some(s: Seq<VaultRecV>, id: Seq<char>)
    ensures
        vault_find(s, id) matches Some(rec) ==> exists|i: int|
            0 <= i < s.len() && s[i] == rec && #[trigger] s[i].file_id == id,
    decreases s.len(),
{
    if s.len() > 0 {
        lemma_vault_find_some(s.drop_first(), id);
        if s[0].file_id != id {
            if let Some(rec) = vault_find(s, id) {
                let i = choose|i: int|
                    0 <= i < s.drop_first().len() && s.drop_first()[i] == rec
                        && #[trigger] s.drop_first()[i].file_id == id;
                assert(s[i + 1] == rec && s[i + 1].file_id == id);
            }
        }
    }
}

/// A plain in-memory key table keyed by identifier, for callers that
/// manage unsealed material themselves.
pub struct KeyManager {
    keys: Vec<(String, KeyData)>,
}

/// The first key for an identifier, if any.
pub open spec fn km_find(s: Seq<(Seq<char>, KeyDataV)>, id: Seq<char>) -> Option<KeyDataV>
    decreases s.len(),
{
    if s.len() == 0 {
        None
    } else if s[0].0 == id {
        Some(s[0].1)
    } else {
        km_find(s.drop_first(), id)
    }
}

impl View for KeyManager {
    type V = Seq<(Seq<char>, KeyDataV)>;

    closed spec fn view(&self) -> Seq<(Seq<char>, KeyDataV)> {
        Seq::new(self.keys@.len(), |i: int| (self.keys@[i].0@, self.keys@[i].1@))
    }
}

impl KeyManager {
    /// An empty key table.
    pub fn new() -> (r: KeyManager)
        ensures
            r@ == Seq::<(Seq<char>, KeyDataV)>::empty(),
    {
        let r = KeyManager { keys: Vec::new() };
        proof {
            assert(r@ =~= Seq::<(Seq<char>, KeyDataV)>::empty());
        }
        r
    }

    /// Stores material under an identifier, replacing what was there.
    pub fn store_key(&mut self, file_id: String, key_data: KeyData)
        ensures
            km_find(final(self)@, file_id@) == Some(key_data@),
            forall|id: Seq<char>| id != file_id@ ==> km_find(final(self)@, id) == km_find(
                old(self)@,
                id,
            ),
    {
        let ghost oldv = self@;
        let ghost kv = key_data@;
        let ghost idv = file_id@;
        self.keys.insert(0, (file_id, key_data));
        proof {
            assert(self@.drop_first() =~= oldv);
            assert(self@[0].0 == idv && self@[0].1 == kv);
        }
    }

    /// The material stored under an identifier, if any.
    pub fn get_key(&self, file_id: &str) -> (r: Option<&KeyData>)
        ensures
            match r {
                Some(kd) => km_find(self@, file_id@) == Some(kd@),
                None => km_find(self@, file_id@) is None,
            },
    {
        let ghost s = self@;
        proof {
            assert(s.skip(0) =~= s);
        }
        let mut i: usize = 0;
        while i < self.keys.len()
            invariant
                i <= s.len(),
                s.len() == self.keys@.len(),
                s == self@,
                km_find(s.skip(i as int), file_id@) == km_find(s, file_id@),
            decreases s.len() - i,
        {
            proof {
                assert(s.skip(i as int)[0] == s[i as int]);
                assert(s.skip(i as int).drop_first() =~= s.skip(i as int + 1));
            }
            if str_equal(self.keys[i].0.as_str(), file_id) {
                return Some(&self.keys[i].1);
            }
            i = i + 1;
        }
        proof {
            assert(s.skip(s.len() as int) =~= Seq::<(Seq<char>, KeyDataV)>::empty());
        }
        None
    }
}

} // verus!
